//! Reading the management API's replies and building its requests.
//!
//! Every reply comes in an envelope `{success, message, data}`. Credentials are
//! the long-lived personal access token, or the short-lived session token right
//! after login; the `New-Api-User` header is always sent where the user id is
//! known, for servers of the older generation.

use vstd::prelude::*;
use crate::error::{message, AppError, ErrorView};
use crate::json::{
    bool_or_false, field_bool, field_bool_or_false, field_i64, field_i64_or_zero, field_str,
    field_str_or_empty, get_bool, get_i64, get_str, i64_or_zero, json_pairs, push_field,
    str_or_empty, Json, JsonValue,
};
use crate::store::{ov, uuid_accepts, uuid_parses, LocalStore};
use crate::text::{
    ascii_lower, ascii_lower_str, concat2, concat3, dec, dec_int, encode_bytes, encode_path_segment,
    i64_text, parse_i64, parse_i64_str, starts_with, starts_with_str, str_eq, trim, trim_str, u64_text,
};
use vstd::string::StringSliceAdditionalSpecFns;

verus! {

/// The message of a refused envelope: its non-empty `message`, else a generic one.
pub open spec fn envelope_error(body: Json) -> Seq<char> {
    match get_str(body, "message"@) {
        Some(m) => if m.len() > 0 {
            m
        } else {
            "服务器返回未知错误"@
        },
        None => "服务器返回未知错误"@,
    }
}

/// The `data` of an envelope, or null.
pub open spec fn envelope_data(body: Json) -> Json {
    match body.get("data"@) {
        Some(x) => x,
        None => Json::Null,
    }
}

/// Opens the envelope: its `data` (null where absent) when `success` is true,
/// else an error with the server's message.
pub fn parse_envelope(body: JsonValue) -> (res: Result<JsonValue, AppError>)
    ensures
        if bool_or_false(body@, "success"@) {
            res matches Ok(d) && d@ == envelope_data(body@)
        } else {
            res matches Err(e) && e@ == message(envelope_error(body@))
        },
{
    let success = field_bool_or_false(&body, "success");
    if success {
        match body.into_field("data") {
            Some(d) => Ok(d),
            None => Ok(JsonValue::Null),
        }
    } else {
        match field_str(&body, "message") {
            Some(m) => {
                if !m.as_str().is_empty() {
                    Err(AppError::Message(m))
                } else {
                    Err(AppError::msg("服务器返回未知错误"))
                }
            },
            None => Err(AppError::msg("服务器返回未知错误")),
        }
    }
}

/// The error for a reply whose body is not JSON.
pub fn malformed_response(status: u16) -> (res: AppError)
    ensures
        res@ == ErrorView::Http("服务器响应异常（HTTP "@ + dec(status as nat) + "）"@),
{
    let code = u64_text(status as u64);
    AppError::Http(concat3("服务器响应异常（HTTP ", code.as_str(), "）"))
}

/// The client's `User-Agent`: `SmartAgentClient/<version>`.
pub fn user_agent(version: &str) -> (res: String)
    ensures
        res@ == "SmartAgentClient/"@ + version@,
{
    concat2("SmartAgentClient/", version)
}

/// The headers of an authenticated request, in order.
pub open spec fn auth_header_list(credential: Seq<char>, user_id: Option<i64>, agent: Seq<char>) -> Seq<(Seq<char>, Seq<char>)> {
    let base = seq![("Authorization"@, "Bearer "@ + credential), ("User-Agent"@, agent)];
    match user_id {
        Some(id) => base.push(("New-Api-User"@, dec_int(id as int))),
        None => base,
    }
}

pub open spec fn pair_views(v: Seq<(String, String)>) -> Seq<(Seq<char>, Seq<char>)> {
    v.map_values(|p: (String, String)| (p.0@, p.1@))
}

/// The headers that authenticate a request with `credential` (a personal
/// access token or a session token).
pub fn auth_headers(credential: &str, user_id: Option<i64>, agent: &str) -> (res: Vec<(String, String)>)
    ensures
        pair_views(res@) == auth_header_list(credential@, user_id, agent@),
{
    let mut h: Vec<(String, String)> = Vec::new();
    h.push(("Authorization".to_owned(), concat2("Bearer ", credential)));
    h.push(("User-Agent".to_owned(), agent.to_owned()));
    match user_id {
        Some(id) => {
            h.push(("New-Api-User".to_owned(), i64_text(id)));
        },
        None => {},
    }
    assert(pair_views(h@) =~= auth_header_list(credential@, user_id, agent@));
    h
}

/// The credential for a request: the access token where one is held, else the
/// session token; the user id goes along.
pub fn current_credential(pat: &Option<String>, user_id: Option<i64>, session: &Option<String>) -> (res: Result<(String, Option<i64>), AppError>)
    ensures
        match (ov(*pat), ov(*session)) {
            (Some(p), _) => res matches Ok(r) && r.0@ == p && r.1 == user_id,
            (None, Some(j)) => res matches Ok(r) && r.0@ == j && r.1 == user_id,
            (None, None) => res matches Err(e) && e@ == message("尚未登录，请先完成登录"@),
        },
{
    match pat {
        Some(p) => Ok((p.clone(), user_id)),
        None => match session {
            Some(j) => Ok((j.clone(), user_id)),
            None => Err(AppError::msg("尚未登录，请先完成登录")),
        },
    }
}

/// The password login request.
pub fn login_body(username: &str, password: &str) -> (res: JsonValue)
    ensures
        res@ == Json::Object(seq![("username"@, Json::Str(username@)), ("password"@, Json::Str(password@))]),
{
    let mut e: Vec<(String, JsonValue)> = Vec::new();
    push_field(&mut e, "username", JsonValue::string(username));
    push_field(&mut e, "password", JsonValue::string(password));
    assert(json_pairs(e@) =~= seq![("username"@, Json::Str(username@)), ("password"@, Json::Str(password@))]);
    JsonValue::Object(e)
}

/// The second-factor request: the flow token of the login and the code (a
/// one-time password or a backup code).
pub fn two_factor_body(flow_token: &str, code: &str) -> (res: JsonValue)
    ensures
        res@ == Json::Object(seq![("flow_token"@, Json::Str(flow_token@)), ("code"@, Json::Str(code@))]),
{
    let mut e: Vec<(String, JsonValue)> = Vec::new();
    push_field(&mut e, "flow_token", JsonValue::string(flow_token));
    push_field(&mut e, "code", JsonValue::string(code));
    assert(json_pairs(e@) =~= seq![("flow_token"@, Json::Str(flow_token@)), ("code"@, Json::Str(code@))]);
    JsonValue::Object(e)
}

/// The result of a login step.
#[derive(Debug)]
pub struct LoginOutcome {
    pub require_2fa: bool,
    pub flow_token: Option<String>,
    pub user_id: Option<i64>,
    pub username: Option<String>,
}

/// The second factor is asked for: the reply's `require_2fa` is `true`, and
/// the `flow_token` (valid five minutes) is handed on.
pub fn two_factor_outcome(data: &JsonValue) -> (res: Option<LoginOutcome>)
    ensures
        match res {
            Some(o) => get_bool(data@, "require_2fa"@) == Some(true) && o.require_2fa && ov(
                o.flow_token,
            ) == get_str(data@, "flow_token"@) && o.user_id is None && o.username is None,
            None => get_bool(data@, "require_2fa"@) != Some(true),
        },
{
    if field_bool(data, "require_2fa") == Some(true) {
        Some(
            LoginOutcome {
                require_2fa: true,
                flow_token: field_str(data, "flow_token"),
                user_id: None,
                username: None,
            },
        )
    } else {
        None
    }
}

/// The `user` of a login reply, or null.
pub open spec fn login_user(data: Json) -> Json {
    match data.get("user"@) {
        Some(u) => u,
        None => Json::Null,
    }
}

/// Reads a completed login: the session token (`access_token`, required) and
/// the user's id and name.
pub fn absorb_login_data(data: &JsonValue) -> (res: Result<(String, LoginOutcome), AppError>)
    ensures
        match get_str(data@, "access_token"@) {
            Some(t) => res matches Ok(r) && r.0@ == t && !r.1.require_2fa && r.1.flow_token is None
                && r.1.user_id == get_i64(login_user(data@), "id"@) && ov(r.1.username) == get_str(
                login_user(data@),
                "username"@,
            ),
            None => res matches Err(e) && e@ == message("登录响应缺少 access_token 字段"@),
        },
{
    let token = match field_str(data, "access_token") {
        Some(t) => t,
        None => {
            return Err(AppError::msg("登录响应缺少 access_token 字段"));
        },
    };
    let (user_id, username) = match data.get("user") {
        Some(u) => (field_i64(u, "id"), field_str(u, "username")),
        None => (None, None),
    };
    Ok((token, LoginOutcome { require_2fa: false, flow_token: None, user_id, username }))
}

/// Keeps the logged-in user's id and name in the local state; nothing else changes.
pub fn remember_user(store: &mut LocalStore, outcome: &LoginOutcome)
    ensures
        final(store).user_id == outcome.user_id,
        ov(final(store).username) == ov(outcome.username),
        *final(store) == (LocalStore {
            user_id: final(store).user_id,
            username: final(store).username,
            ..*old(store)
        }),
{
    store.user_id = outcome.user_id;
    store.username = crate::store::clone_opt(&outcome.username);
}

/// Whether a personal access token is usable.
#[derive(Debug)]
pub struct PatResult {
    /// The token held locally still works and was kept.
    pub reused: bool,
    /// A new token was issued (the server revoked the old one).
    pub generated: bool,
}

/// The check of a held access token succeeded: its reply says `success: true`.
pub fn pat_still_valid(body: &JsonValue) -> (res: bool)
    ensures
        res == (get_bool(body@, "success"@) == Some(true)),
{
    field_bool(body, "success") == Some(true)
}

/// What to do about the access token once the held one was checked.
#[derive(Debug)]
pub enum PatAction {
    /// The held token still works: it is kept and no new one is issued.
    Reuse,
    /// A new token is issued with the session token (which revokes the old
    /// one on every device).
    Issue,
}

/// Decides whether the held access token is kept: exactly where one is held
/// and the check of it came back with `success: true`. Otherwise a held token
/// is dropped from the state (which must then be saved) and a new one is
/// issued. `checked` is the reply to the check, `None` where no token was held,
/// the request failed or its reply could not be read.
pub fn pat_step(store: &mut LocalStore, checked: Option<&JsonValue>) -> (res: PatAction)
    ensures
        res is Reuse <==> (old(store).pat is Some && (checked matches Some(b) && get_bool(b@, "success"@)
            == Some(true))),
        res is Reuse ==> *final(store) == *old(store),
        res is Issue ==> *final(store) == (LocalStore { pat: None, ..*old(store) }),
{
    if store.pat.is_some() {
        match checked {
            Some(b) => {
                if pat_still_valid(b) {
                    return PatAction::Reuse;
                }
            },
            None => {},
        }
    }
    store.pat = None;
    PatAction::Issue
}

/// The session token with which a new access token is issued.
pub fn session_for_new_pat(session: &Option<String>) -> (res: Result<String, AppError>)
    ensures
        match ov(*session) {
            Some(j) => res matches Ok(r) && r@ == j,
            None => res matches Err(e) && e@ == message(
                "登录状态已过期，请重新登录后再生成访问令牌"@,
            ),
        },
{
    match session {
        Some(j) => Ok(j.clone()),
        None => Err(AppError::msg("登录状态已过期，请重新登录后再生成访问令牌")),
    }
}

/// The new access token in an issuing reply: `data` must be a string.
pub fn pat_from_data(data: &JsonValue) -> (res: Result<String, AppError>)
    ensures
        match data@.as_str() {
            Some(p) => res matches Ok(r) && r@ == p,
            None => res matches Err(e) && e@ == message("生成访问令牌失败：响应格式异常"@),
        },
{
    match data.as_str() {
        Some(p) => Ok(p.clone()),
        None => Err(AppError::msg("生成访问令牌失败：响应格式异常")),
    }
}

/// The account's balance and totals.
#[derive(Debug)]
pub struct SelfInfo {
    pub user_id: i64,
    pub username: String,
    pub display_name: String,
    pub email: String,
    /// Remaining quota (500000 is one dollar, per the site's `quota_per_unit`).
    pub quota: i64,
    pub used_quota: i64,
    pub request_count: i64,
}

impl SelfInfo {
    /// Reads `/api/user/self`; a missing or mistyped field reads as zero or empty.
    pub fn from_data(data: &JsonValue) -> (res: SelfInfo)
        ensures
            res.user_id == i64_or_zero(data@, "id"@),
            res.username@ == str_or_empty(data@, "username"@),
            res.display_name@ == str_or_empty(data@, "display_name"@),
            res.email@ == str_or_empty(data@, "email"@),
            res.quota == i64_or_zero(data@, "quota"@),
            res.used_quota == i64_or_zero(data@, "used_quota"@),
            res.request_count == i64_or_zero(data@, "request_count"@),
    {
        SelfInfo {
            user_id: field_i64_or_zero(data, "id"),
            username: field_str_or_empty(data, "username"),
            display_name: field_str_or_empty(data, "display_name"),
            email: field_str_or_empty(data, "email"),
            quota: field_i64_or_zero(data, "quota"),
            used_quota: field_i64_or_zero(data, "used_quota"),
            request_count: field_i64_or_zero(data, "request_count"),
        }
    }
}

/// The body that sets the display name (trimmed), keeping the account's
/// username and leaving the password unchanged.
pub fn profile_update_body(self_data: &JsonValue, display_name: &str) -> (res: Result<JsonValue, AppError>)
    ensures
        match get_str(self_data@, "username"@) {
            Some(u) => res matches Ok(b) && b@ == Json::Object(
                seq![
                    ("username"@, Json::Str(u)),
                    ("display_name"@, Json::Str(trim(display_name@))),
                    ("password"@, Json::Str(""@)),
                ],
            ),
            None => res matches Err(e) && e@ == message("账户信息不完整"@),
        },
{
    let username = match field_str(self_data, "username") {
        Some(u) => u,
        None => {
            return Err(AppError::msg("账户信息不完整"));
        },
    };
    let mut e: Vec<(String, JsonValue)> = Vec::new();
    push_field(&mut e, "username", JsonValue::Str(username));
    push_field(&mut e, "display_name", JsonValue::Str(trim_str(display_name)));
    push_field(&mut e, "password", JsonValue::string(""));
    proof {
        assert(json_pairs(e@) =~= seq![
            ("username"@, Json::Str(username@)),
            ("display_name"@, Json::Str(trim(display_name@))),
            ("password"@, Json::Str(""@)),
        ]);
    }
    Ok(JsonValue::Object(e))
}

/// A password change needs the session from a fresh login.
pub fn session_for_password_change(session: &Option<String>) -> (res: Result<String, AppError>)
    ensures
        match ov(*session) {
            Some(j) => res matches Ok(r) && r@ == j,
            None => res matches Err(e) && e@ == message(
                "为保障安全，请退出后重新登录再修改密码"@,
            ),
        },
{
    match session {
        Some(j) => Ok(j.clone()),
        None => Err(AppError::msg("为保障安全，请退出后重新登录再修改密码")),
    }
}

/// The account's display name, or `fallback` where it has none.
pub open spec fn display_or(data: Json, fallback: Seq<char>) -> Seq<char> {
    match get_str(data, "display_name"@) {
        Some(d) => d,
        None => fallback,
    }
}

/// The body that changes the password: the account's username, its display
/// name (the username where it has none), the old and the new password.
pub fn password_change_body(self_data: &JsonValue, original_password: &str, password: &str) -> (res: Result<JsonValue, AppError>)
    ensures
        match get_str(self_data@, "username"@) {
            Some(u) => res matches Ok(b) && b@ == Json::Object(
                seq![
                    ("username"@, Json::Str(u)),
                    ("display_name"@, Json::Str(display_or(self_data@, u))),
                    ("original_password"@, Json::Str(original_password@)),
                    ("password"@, Json::Str(password@)),
                ],
            ),
            None => res matches Err(e) && e@ == message("账户信息不完整"@),
        },
{
    let username = match field_str(self_data, "username") {
        Some(u) => u,
        None => {
            return Err(AppError::msg("账户信息不完整"));
        },
    };
    let display_name = match field_str(self_data, "display_name") {
        Some(d) => d,
        None => username.clone(),
    };
    let ghost dn = display_name@;
    let ghost un = username@;
    assert(dn == display_or(self_data@, un));
    let mut e: Vec<(String, JsonValue)> = Vec::new();
    push_field(&mut e, "username", JsonValue::Str(username));
    push_field(&mut e, "display_name", JsonValue::Str(display_name));
    push_field(&mut e, "original_password", JsonValue::string(original_password));
    push_field(&mut e, "password", JsonValue::string(password));
    proof {
        assert(json_pairs(e@) =~= seq![
            ("username"@, Json::Str(un)),
            ("display_name"@, Json::Str(dn)),
            ("original_password"@, Json::Str(original_password@)),
            ("password"@, Json::Str(password@)),
        ]);
    }
    Ok(JsonValue::Object(e))
}

/// Today's totals.
#[derive(Debug)]
pub struct UsageSummary {
    /// Quota spent today.
    pub today_quota: i64,
    pub today_requests: i64,
    pub today_tokens: i64,
}

/// The start of the (UTC) day that holds `now`.
pub open spec fn day_start(now: nat) -> nat {
    (now - now % 86400) as nat
}

/// The usage query for today: from the start of the day to `now`.
pub fn usage_path(now: u64) -> (res: String)
    requires
        now <= i64::MAX,
    ensures
        res@ == "/api/data/self?start_timestamp="@ + dec(day_start(now as nat)) + "&end_timestamp="@
            + dec(now as nat),
{
    let start = now - now % 86400;
    let a = u64_text(start);
    let b = u64_text(now);
    let mut s = concat2("/api/data/self?start_timestamp=", a.as_str());
    s.append("&end_timestamp=");
    s.append(b.as_str());
    s
}

/// Field `k` of `row` as a number, zero where absent.
pub open spec fn row_value(row: Json, k: Seq<char>) -> int {
    match get_i64(row, k) {
        Some(i) => i as int,
        None => 0,
    }
}

/// The sum of field `k` over `rows`.
pub open spec fn sum_field(rows: Seq<Json>, k: Seq<char>) -> int
    decreases rows.len(),
{
    if rows.len() == 0 {
        0
    } else {
        sum_field(rows.drop_last(), k) + row_value(rows.last(), k)
    }
}

/// Every running total of field `k` fits an `i64`.
pub open spec fn sums_fit(rows: Seq<Json>, k: Seq<char>) -> bool {
    forall|i: int| 0 <= i <= rows.len() ==> i64::MIN <= #[trigger] sum_field(rows.take(i), k) <= i64::MAX
}

/// Today's totals from the daily aggregates: the sums of `quota`, `count` and
/// `token_used` over the rows (zero where `data` is not an array). `None` where
/// a running total leaves the `i64` range.
pub fn usage_summary(data: &JsonValue) -> (res: Option<UsageSummary>)
    ensures
        match data@.as_array() {
            Some(rows) => if sums_fit(rows, "quota"@) && sums_fit(rows, "count"@) && sums_fit(rows, "token_used"@) {
                res matches Some(u) && u.today_quota == sum_field(rows, "quota"@) && u.today_requests
                    == sum_field(rows, "count"@) && u.today_tokens == sum_field(rows, "token_used"@)
            } else {
                res is None
            },
            None => res matches Some(u) && u.today_quota == 0 && u.today_requests == 0 && u.today_tokens == 0,
        },
{
    let mut q: i64 = 0;
    let mut c: i64 = 0;
    let mut t: i64 = 0;
    match data.as_array() {
        Some(rows) => {
            let ghost js = crate::json::json_seq(rows@);
            proof {
                crate::json::lemma_json_seq(rows@);
                assert(js.take(0) =~= Seq::<Json>::empty());
            }
            let mut i: usize = 0;
            while i < rows.len()
                invariant
                    data@.as_array() == Some(js),
                    js == crate::json::json_seq(rows@),
                    js.len() == rows@.len(),
                    forall|j: int| 0 <= j < rows@.len() ==> #[trigger] js[j] == rows@[j]@,
                    i <= rows@.len(),
                    q == sum_field(js.take(i as int), "quota"@),
                    c == sum_field(js.take(i as int), "count"@),
                    t == sum_field(js.take(i as int), "token_used"@),
                    forall|j: int| 0 <= j <= i ==> i64::MIN <= #[trigger] sum_field(js.take(j), "quota"@) <= i64::MAX,
                    forall|j: int| 0 <= j <= i ==> i64::MIN <= #[trigger] sum_field(js.take(j), "count"@) <= i64::MAX,
                    forall|j: int| 0 <= j <= i ==> i64::MIN <= #[trigger] sum_field(js.take(j), "token_used"@) <= i64::MAX,
                decreases rows@.len() - i,
            {
                let row = &rows[i];
                proof {
                    assert(js.take(i + 1).drop_last() =~= js.take(i as int));
                    assert(js.take(i + 1).last() == row@);
                }
                let dq = match field_i64(row, "quota") {
                    Some(v) => v,
                    None => 0,
                };
                let dc = match field_i64(row, "count") {
                    Some(v) => v,
                    None => 0,
                };
                let dt = match field_i64(row, "token_used") {
                    Some(v) => v,
                    None => 0,
                };
                proof {
                    assert(sum_field(js.take(i + 1), "quota"@) == q + dq);
                    assert(sum_field(js.take(i + 1), "count"@) == c + dc);
                    assert(sum_field(js.take(i + 1), "token_used"@) == t + dt);
                }
                match q.checked_add(dq) {
                    Some(v) => {
                        q = v;
                    },
                    None => {
                        proof {
                            assert(!sums_fit(js, "quota"@)) by {
                                assert(!(i64::MIN <= sum_field(js.take(i + 1), "quota"@) <= i64::MAX));
                            }
                        }
                        return None;
                    },
                }
                match c.checked_add(dc) {
                    Some(v) => {
                        c = v;
                    },
                    None => {
                        proof {
                            assert(!sums_fit(js, "count"@)) by {
                                assert(!(i64::MIN <= sum_field(js.take(i + 1), "count"@) <= i64::MAX));
                            }
                        }
                        return None;
                    },
                }
                match t.checked_add(dt) {
                    Some(v) => {
                        t = v;
                    },
                    None => {
                        proof {
                            assert(!sums_fit(js, "token_used"@)) by {
                                assert(!(i64::MIN <= sum_field(js.take(i + 1), "token_used"@) <= i64::MAX));
                            }
                        }
                        return None;
                    },
                }
                i += 1;
            }
            proof {
                assert(js.take(rows@.len() as int) =~= js);
            }
            Some(UsageSummary { today_quota: q, today_requests: c, today_tokens: t })
        },
        None => Some(UsageSummary { today_quota: 0, today_requests: 0, today_tokens: 0 }),
    }
}

/// A number read from a JSON number or from a string holding one, else `fallback`.
pub open spec fn value_as_i64(v: Option<Json>, fallback: i64) -> i64 {
    match v {
        Some(x) => match x.as_i64() {
            Some(i) => i,
            None => match x.as_str() {
                Some(s) => match parse_i64(s) {
                    Some(i) => i,
                    None => fallback,
                },
                None => fallback,
            },
        },
        None => fallback,
    }
}

/// A number read from a JSON number or from a string holding one, else `fallback`.
pub fn read_i64(v: Option<&JsonValue>, fallback: i64) -> (res: i64)
    ensures
        res == value_as_i64(
            match v {
                Some(x) => Some(x@),
                None => None,
            },
            fallback,
        ),
{
    match v {
        Some(x) => match x.as_i64() {
            Some(i) => i,
            None => match x.as_str() {
                Some(s) => match parse_i64_str(s.as_str()) {
                    Some(i) => i,
                    None => fallback,
                },
                None => fallback,
            },
        },
        None => fallback,
    }
}

/// The label shown for a payment method type.
pub open spec fn payment_label_of(t: Seq<char>) -> Seq<char> {
    if t == "alipay"@ {
        "支付宝"@
    } else if t == "wxpay"@ || t == "wechat"@ {
        "微信支付"@
    } else if t == "qqpay"@ {
        "QQ 钱包"@
    } else if t == "unionpay"@ {
        "银联支付"@
    } else {
        "在线支付"@
    }
}

/// The label shown for a payment method type; the provider's own names stay
/// on this side.
pub fn payment_label(method_type: &str) -> (res: String)
    ensures
        res@ == payment_label_of(method_type@),
{
    if str_eq(method_type, "alipay") {
        "支付宝".to_owned()
    } else if str_eq(method_type, "wxpay") || str_eq(method_type, "wechat") {
        "微信支付".to_owned()
    } else if str_eq(method_type, "qqpay") {
        "QQ 钱包".to_owned()
    } else if str_eq(method_type, "unionpay") {
        "银联支付".to_owned()
    } else {
        "在线支付".to_owned()
    }
}

/// A payment method offered to the user.
#[derive(Debug)]
pub struct TopUpMethod {
    pub id: String,
    pub label: String,
    pub min_amount: i64,
}

/// What top-up the site offers.
#[derive(Debug)]
pub struct TopUpInfo {
    pub online_enabled: bool,
    pub redemption_enabled: bool,
    pub min_amount: i64,
    pub amount_options: Vec<i64>,
    pub methods: Vec<TopUpMethod>,
}

/// The positive numbers among `a`, in order.
pub open spec fn positive_amounts(a: Seq<Json>) -> Seq<i64>
    decreases a.len(),
{
    if a.len() == 0 {
        Seq::empty()
    } else {
        let r = positive_amounts(a.drop_last());
        match a.last().as_i64() {
            Some(v) => if v > 0 {
                r.push(v)
            } else {
                r
            },
            None => r,
        }
    }
}

pub open spec fn default_amounts() -> Seq<i64> {
    seq![10, 20, 50, 100, 200]
}

/// The amounts offered: the positive numbers in `amount_options`, or a
/// default list where there are none.
pub open spec fn amount_options_of(data: Json) -> Seq<i64> {
    match data.get("amount_options"@) {
        Some(x) => match x.as_array() {
            Some(a) => if positive_amounts(a).len() > 0 {
                positive_amounts(a)
            } else {
                default_amounts()
            },
            None => default_amounts(),
        },
        None => default_amounts(),
    }
}

/// An entry of `amount_options` that is offered: a positive integer.
pub open spec fn offered_amount(j: Json) -> bool {
    j.as_i64() is Some && j.as_i64()->0 > 0
}

/// The entries of `a` that are offered, in order.
pub open spec fn offered_entries(a: Seq<Json>) -> Seq<Json> {
    a.filter(|j: Json| offered_amount(j))
}

/// The numbers of integer entries.
pub open spec fn entry_numbers(a: Seq<Json>) -> Seq<i64> {
    a.map_values(|j: Json| j.as_i64()->0)
}

/// The offered amounts are exactly the positive integers of the list, each
/// once per occurrence and in their order: none is lost, none added.
pub proof fn law_positive_amounts_in_order(a: Seq<Json>)
    ensures
        positive_amounts(a) == entry_numbers(offered_entries(a)),
    decreases a.len(),
{
    reveal(Seq::filter);
    if a.len() > 0 {
        law_positive_amounts_in_order(a.drop_last());
        let f = offered_entries(a.drop_last());
        assert(offered_entries(a) == (if offered_amount(a.last()) { f.push(a.last()) } else { f }));
        assert(entry_numbers(f.push(a.last())) =~= entry_numbers(f).push(a.last().as_i64()->0));
    } else {
        assert(entry_numbers(offered_entries(a)) =~= Seq::<i64>::empty());
    }
}

/// The amounts offered on the top-up page: where `amount_options` is an array
/// holding a positive integer, exactly its positive integers in order;
/// otherwise the default list.
pub proof fn law_amount_options(data: Json)
    ensures
        ({
            let listed = match data.get("amount_options"@) {
                Some(Json::Array(a)) => a,
                _ => Seq::empty(),
            };
            let picked = offered_entries(listed);
            &&& picked.len() > 0 ==> amount_options_of(data) == entry_numbers(picked)
            &&& picked.len() == 0 ==> amount_options_of(data) == seq![10i64, 20, 50, 100, 200]
        }),
{
    match data.get("amount_options"@) {
        Some(Json::Array(a)) => {
            law_positive_amounts_in_order(a);
            assert(entry_numbers(offered_entries(a)).len() == offered_entries(a).len());
        },
        _ => {
            reveal(Seq::filter);
            assert(offered_entries(Seq::<Json>::empty()).len() == 0);
        },
    }
}

/// The payment methods of `items`: those with a non-blank `type`, by their
/// trimmed type, its label and their own minimum (or `min`).
pub open spec fn methods_of(items: Seq<Json>, min: i64) -> Seq<(Seq<char>, Seq<char>, i64)>
    decreases items.len(),
{
    if items.len() == 0 {
        Seq::empty()
    } else {
        let r = methods_of(items.drop_last(), min);
        let it = items.last();
        match get_str(it, "type"@) {
            Some(t) => if trim(t).len() > 0 {
                r.push((trim(t), payment_label_of(trim(t)), value_as_i64(it.get("min_topup"@), min)))
            } else {
                r
            },
            None => r,
        }
    }
}

/// A `pay_methods` entry that is offered: its `type` is a non-blank string.
pub open spec fn offered_method(j: Json) -> bool {
    get_str(j, "type"@) matches Some(t) && trim(t).len() > 0
}

/// The entries of `items` that are offered, in order.
pub open spec fn offered_method_entries(items: Seq<Json>) -> Seq<Json> {
    items.filter(|j: Json| offered_method(j))
}

/// An offered entry as a method: its trimmed type, that type's label, and its
/// own minimum (a number or numeric string), else the page's minimum `min`.
pub open spec fn method_entry(j: Json, min: i64) -> (Seq<char>, Seq<char>, i64) {
    let t = trim(get_str(j, "type"@)->0);
    (t, payment_label_of(t), value_as_i64(j.get("min_topup"@), min))
}

/// The payment methods are exactly the entries with a non-blank type, in
/// order, each with its trimmed type, its label and its minimum.
pub proof fn law_payment_methods_in_order(items: Seq<Json>, min: i64)
    ensures
        methods_of(items, min) == offered_method_entries(items).map_values(|j: Json| method_entry(j, min)),
    decreases items.len(),
{
    reveal(Seq::filter);
    if items.len() > 0 {
        law_payment_methods_in_order(items.drop_last(), min);
        let f = offered_method_entries(items.drop_last());
        assert(offered_method_entries(items) == (if offered_method(items.last()) {
            f.push(items.last())
        } else {
            f
        }));
        assert(f.push(items.last()).map_values(|j: Json| method_entry(j, min)) =~= f.map_values(
            |j: Json| method_entry(j, min),
        ).push(method_entry(items.last(), min)));
    } else {
        assert(offered_method_entries(items).map_values(|j: Json| method_entry(j, min)) =~= Seq::<
            (Seq<char>, Seq<char>, i64),
        >::empty());
    }
}

/// The `pay_methods` array, or nothing.
pub open spec fn pay_method_items(data: Json) -> Seq<Json> {
    match data.get("pay_methods"@) {
        Some(x) => match x.as_array() {
            Some(a) => a,
            None => Seq::empty(),
        },
        None => Seq::empty(),
    }
}

pub open spec fn method_views(m: Seq<TopUpMethod>) -> Seq<(Seq<char>, Seq<char>, i64)> {
    m.map_values(|x: TopUpMethod| (x.id@, x.label@, x.min_amount))
}

fn positive_amount_list(a: &Vec<JsonValue>) -> (res: Vec<i64>)
    ensures
        res@ == positive_amounts(crate::json::json_seq(a@)),
{
    let ghost js = crate::json::json_seq(a@);
    proof {
        crate::json::lemma_json_seq(a@);
    }
    let mut out: Vec<i64> = Vec::new();
    let mut i: usize = 0;
    while i < a.len()
        invariant
            js == crate::json::json_seq(a@),
            js.len() == a@.len(),
            forall|j: int| 0 <= j < a@.len() ==> #[trigger] js[j] == a@[j]@,
            i <= a@.len(),
            out@ == positive_amounts(js.take(i as int)),
        decreases a@.len() - i,
    {
        proof {
            assert(js.take(i + 1).drop_last() =~= js.take(i as int));
            assert(js.take(i + 1).last() == a@[i as int]@);
        }
        match a[i].as_i64() {
            Some(v) => {
                if v > 0 {
                    out.push(v);
                }
            },
            None => {},
        }
        i += 1;
    }
    assert(js.take(a@.len() as int) =~= js);
    out
}

fn method_list(items: &Vec<JsonValue>, min: i64) -> (res: Vec<TopUpMethod>)
    ensures
        method_views(res@) == methods_of(crate::json::json_seq(items@), min),
{
    let ghost js = crate::json::json_seq(items@);
    proof {
        crate::json::lemma_json_seq(items@);
    }
    let mut out: Vec<TopUpMethod> = Vec::new();
    let mut i: usize = 0;
    while i < items.len()
        invariant
            js == crate::json::json_seq(items@),
            js.len() == items@.len(),
            forall|j: int| 0 <= j < items@.len() ==> #[trigger] js[j] == items@[j]@,
            i <= items@.len(),
            method_views(out@) == methods_of(js.take(i as int), min),
        decreases items@.len() - i,
    {
        let it = &items[i];
        proof {
            assert(js.take(i + 1).drop_last() =~= js.take(i as int));
            assert(js.take(i + 1).last() == it@);
        }
        match field_str(it, "type") {
            Some(t) => {
                let id = trim_str(t.as_str());
                if !id.as_str().is_empty() {
                    let label = payment_label(id.as_str());
                    let m = read_i64(it.get("min_topup"), min);
                    let ghost before = out@;
                    out.push(TopUpMethod { id, label, min_amount: m });
                    proof {
                        assert(method_views(out@) =~= method_views(before).push(
                            (trim(t@), payment_label_of(trim(t@)), m),
                        ));
                    }
                }
            },
            None => {},
        }
        i += 1;
    }
    assert(js.take(items@.len() as int) =~= js);
    out
}

/// Reads `/api/user/topup/info`: online top-up is offered only where it is
/// enabled and some payment method is usable.
pub fn top_up_info(data: &JsonValue) -> (res: TopUpInfo)
    ensures
        res.min_amount == value_as_i64(data@.get("min_topup"@), 1),
        res.amount_options@ == amount_options_of(data@),
        method_views(res.methods@) == (if bool_or_false(data@, "enable_online_topup"@) {
            methods_of(pay_method_items(data@), res.min_amount)
        } else {
            Seq::empty()
        }),
        res.online_enabled == (bool_or_false(data@, "enable_online_topup"@) && res.methods@.len() > 0),
        res.redemption_enabled == bool_or_false(data@, "enable_redemption"@),
{
    let online = field_bool_or_false(data, "enable_online_topup");
    let min_amount = read_i64(data.get("min_topup"), 1);
    let amount_options = match data.get("amount_options") {
        Some(x) => match x.as_array() {
            Some(a) => {
                let p = positive_amount_list(a);
                if p.len() > 0 {
                    p
                } else {
                    let mut d: Vec<i64> = Vec::new();
                    d.push(10);
                    d.push(20);
                    d.push(50);
                    d.push(100);
                    d.push(200);
                    assert(d@ =~= default_amounts());
                    d
                }
            },
            None => {
                let mut d: Vec<i64> = Vec::new();
                d.push(10);
                d.push(20);
                d.push(50);
                d.push(100);
                d.push(200);
                assert(d@ =~= default_amounts());
                d
            },
        },
        None => {
            let mut d: Vec<i64> = Vec::new();
            d.push(10);
            d.push(20);
            d.push(50);
            d.push(100);
            d.push(200);
            assert(d@ =~= default_amounts());
            d
        },
    };
    let methods = if online {
        match data.get("pay_methods") {
            Some(x) => match x.as_array() {
                Some(a) => method_list(a, min_amount),
                None => {
                    let v: Vec<TopUpMethod> = Vec::new();
                    assert(method_views(v@) =~= Seq::empty());
                    v
                },
            },
            None => {
                let v: Vec<TopUpMethod> = Vec::new();
                assert(method_views(v@) =~= Seq::empty());
                v
            },
        }
    } else {
        let v: Vec<TopUpMethod> = Vec::new();
        assert(method_views(v@) =~= Seq::empty());
        v
    };
    let has_methods = methods.len() > 0;
    TopUpInfo {
        online_enabled: online && has_methods,
        redemption_enabled: field_bool_or_false(data, "enable_redemption"),
        min_amount,
        amount_options,
        methods,
    }
}

/// The invitation state of the account.
#[derive(Debug)]
pub struct InviteInfo {
    pub aff_code: String,
    pub inviter_id: i64,
    pub aff_count: i64,
    pub aff_quota: i64,
    pub aff_history_quota: i64,
    pub inviter_reward: i64,
    pub invitee_reward: i64,
    pub enabled: bool,
}

impl InviteInfo {
    /// Reads `/api/user/invite`; a missing or mistyped field reads as zero,
    /// empty or false.
    pub fn from_data(data: &JsonValue) -> (res: InviteInfo)
        ensures
            res.aff_code@ == str_or_empty(data@, "aff_code"@),
            res.inviter_id == i64_or_zero(data@, "inviter_id"@),
            res.aff_count == i64_or_zero(data@, "aff_count"@),
            res.aff_quota == i64_or_zero(data@, "aff_quota"@),
            res.aff_history_quota == i64_or_zero(data@, "aff_history_quota"@),
            res.inviter_reward == i64_or_zero(data@, "inviter_reward"@),
            res.invitee_reward == i64_or_zero(data@, "invitee_reward"@),
            res.enabled == bool_or_false(data@, "enabled"@),
    {
        InviteInfo {
            aff_code: field_str_or_empty(data, "aff_code"),
            inviter_id: field_i64_or_zero(data, "inviter_id"),
            aff_count: field_i64_or_zero(data, "aff_count"),
            aff_quota: field_i64_or_zero(data, "aff_quota"),
            aff_history_quota: field_i64_or_zero(data, "aff_history_quota"),
            inviter_reward: field_i64_or_zero(data, "inviter_reward"),
            invitee_reward: field_i64_or_zero(data, "invitee_reward"),
            enabled: field_bool_or_false(data, "enabled"),
        }
    }
}

/// The outcome of claiming an invitation reward.
#[derive(Debug)]
pub struct InviteClaimResult {
    pub rewarded: bool,
    pub already_done: bool,
    pub inviter_quota: i64,
    pub invitee_quota: i64,
    pub status: String,
    pub message: String,
}

impl InviteClaimResult {
    /// Reads the claim reply.
    pub fn from_data(data: &JsonValue) -> (res: InviteClaimResult)
        ensures
            res.rewarded == bool_or_false(data@, "rewarded"@),
            res.already_done == bool_or_false(data@, "already_done"@),
            res.inviter_quota == i64_or_zero(data@, "inviter_quota"@),
            res.invitee_quota == i64_or_zero(data@, "invitee_quota"@),
            res.status@ == str_or_empty(data@, "status"@),
            res.message@ == str_or_empty(data@, "message"@),
    {
        InviteClaimResult {
            rewarded: field_bool_or_false(data, "rewarded"),
            already_done: field_bool_or_false(data, "already_done"),
            inviter_quota: field_i64_or_zero(data, "inviter_quota"),
            invitee_quota: field_i64_or_zero(data, "invitee_quota"),
            status: field_str_or_empty(data, "status"),
            message: field_str_or_empty(data, "message"),
        }
    }
}

/// A reward is claimed for the key that this device connected with.
pub fn claim_token_id(token_id: Option<i64>) -> (res: Result<i64, AppError>)
    ensures
        match token_id {
            Some(id) => res == Ok::<i64, AppError>(id),
            None => res matches Err(e) && e@ == message("请先在本机完成服务连接"@),
        },
{
    match token_id {
        Some(id) => Ok(id),
        None => Err(AppError::msg("请先在本机完成服务连接")),
    }
}

/// The claim request: this device and its key.
pub fn claim_body(device_id: &str, token_id: i64) -> (res: JsonValue)
    ensures
        res@ == Json::Object(seq![("device_id"@, Json::Str(device_id@)), ("token_id"@, Json::Int(token_id))]),
{
    let mut e: Vec<(String, JsonValue)> = Vec::new();
    push_field(&mut e, "device_id", JsonValue::string(device_id));
    push_field(&mut e, "token_id", JsonValue::Int(token_id));
    assert(json_pairs(e@) =~= seq![("device_id"@, Json::Str(device_id@)), ("token_id"@, Json::Int(token_id))]);
    JsonValue::Object(e)
}

/// A redemption code, trimmed; a blank one is refused.
pub fn redeem_code(key: &str) -> (res: Result<String, AppError>)
    ensures
        if trim(key@).len() > 0 {
            res matches Ok(k) && k@ == trim(key@)
        } else {
            res matches Err(e) && e@ == message("请输入兑换码"@)
        },
{
    let k = trim_str(key);
    if k.as_str().is_empty() {
        Err(AppError::msg("请输入兑换码"))
    } else {
        Ok(k)
    }
}

/// The redemption request.
pub fn redeem_body(key: &str) -> (res: JsonValue)
    ensures
        res@ == Json::Object(seq![("key"@, Json::Str(key@))]),
{
    let mut e: Vec<(String, JsonValue)> = Vec::new();
    push_field(&mut e, "key", JsonValue::string(key));
    assert(json_pairs(e@) =~= seq![("key"@, Json::Str(key@))]);
    JsonValue::Object(e)
}

/// The quota that a redemption added: the reply's number (or numeric string),
/// else zero.
pub fn redeemed_quota(data: &JsonValue) -> (res: i64)
    ensures
        res == value_as_i64(Some(data@), 0),
{
    read_i64(Some(data), 0)
}

/// A top-up amount must be positive.
pub fn check_top_up_amount(amount: i64) -> (res: Result<(), AppError>)
    ensures
        if amount > 0 {
            res is Ok
        } else {
            res matches Err(e) && e@ == message("请输入有效的充值金额"@)
        },
{
    if amount <= 0 {
        Err(AppError::msg("请输入有效的充值金额"))
    } else {
        Ok(())
    }
}

/// The order request of a top-up.
pub fn checkout_body(amount: i64, payment_method: &str) -> (res: JsonValue)
    ensures
        res@ == Json::Object(seq![("amount"@, Json::Int(amount)), ("payment_method"@, Json::Str(payment_method@))]),
{
    let mut e: Vec<(String, JsonValue)> = Vec::new();
    push_field(&mut e, "amount", JsonValue::Int(amount));
    push_field(&mut e, "payment_method", JsonValue::string(payment_method));
    assert(json_pairs(e@) =~= seq![("amount"@, Json::Int(amount)), ("payment_method"@, Json::Str(payment_method@))]);
    JsonValue::Object(e)
}

/// The scheme of `raw` where the `url` crate parses it as an absolute URL.
pub uninterp spec fn url_scheme_of(raw: Seq<char>) -> Option<Seq<char>>;

/// `reqwest::Url::parse(raw)` and its `scheme()`: the scheme of the parsed URL,
/// or `None` where `raw` does not parse. What the URL parser accepts is named,
/// not restated.
#[verifier::external_body]
fn url_scheme(raw: &str) -> (res: Option<String>)
    ensures
        ov(res) == url_scheme_of(raw@),
{
    match reqwest::Url::parse(raw) {
        Ok(u) => Some(u.scheme().to_owned()),
        Err(_) => None,
    }
}

/// The cashier page to open: its address and, where the reply's `data` is an
/// object, the query parameters to append (its entries, in order).
#[derive(Debug)]
pub struct CheckoutPlan {
    pub url: String,
    pub params: Option<Vec<(String, JsonValue)>>,
}

/// The error of a refused top-up order: the reply's `data` text, else a
/// generic one.
pub open spec fn checkout_refusal(body: Json) -> Seq<char> {
    match get_str(body, "data"@) {
        Some(d) => d,
        None => "暂时无法发起支付"@,
    }
}

/// Reads the reply to a top-up order. The order stands only where `message`
/// is `success`; its `url` must parse, with scheme `http` or `https`; the
/// entries of a `data` object become query parameters.
pub fn checkout_plan(body: JsonValue) -> (res: Result<CheckoutPlan, AppError>)
    ensures
        get_str(body@, "message"@) != Some("success"@) ==> (res matches Err(e) && e@ == message(
            checkout_refusal(body@),
        )),
        get_str(body@, "message"@) == Some("success"@) ==> match get_str(body@, "url"@) {
            None => res matches Err(e) && e@ == message("支付页面响应异常"@),
            Some(u) => match url_scheme_of(u) {
                None => res matches Err(e) && e@ == message("支付页面地址异常"@),
                Some(sc) => if sc == "http"@ || sc == "https"@ {
                    res matches Ok(p) && p.url@ == u && match body@.get("data"@) {
                        Some(Json::Object(e)) => p.params matches Some(v) && json_pairs(v@) == e,
                        _ => p.params is None,
                    }
                } else {
                    res matches Err(e) && e@ == message("支付页面地址不受支持"@)
                },
            },
        },
{
    let ok = match field_str(&body, "message") {
        Some(m) => str_eq(m.as_str(), "success"),
        None => false,
    };
    if !ok {
        return match field_str(&body, "data") {
            Some(d) => Err(AppError::Message(d)),
            None => Err(AppError::msg("暂时无法发起支付")),
        };
    }
    let url = match field_str(&body, "url") {
        Some(u) => u,
        None => {
            return Err(AppError::msg("支付页面响应异常"));
        },
    };
    let scheme = match url_scheme(url.as_str()) {
        Some(sc) => sc,
        None => {
            return Err(AppError::msg("支付页面地址异常"));
        },
    };
    if !(str_eq(scheme.as_str(), "http") || str_eq(scheme.as_str(), "https")) {
        return Err(AppError::msg("支付页面地址不受支持"));
    }
    let params = match body.into_field("data") {
        Some(JsonValue::Object(e)) => Some(e),
        _ => None,
    };
    Ok(CheckoutPlan { url, params })
}

/// The text of a query parameter's value: a string as it is, a number in its
/// JSON text, `true`, `false` or `null`; `None` for an array or an object,
/// whose JSON text is rendered by the caller.
pub open spec fn query_text(v: Json) -> Option<Seq<char>> {
    match v {
        Json::Str(s) => Some(s),
        Json::Int(i) => Some(dec_int(i as int)),
        Json::Number(t) => Some(t),
        Json::Bool(b) => Some(if b { "true"@ } else { "false"@ }),
        Json::Null => Some("null"@),
        _ => None,
    }
}

/// The text of a query parameter's value (see `query_text`).
pub fn query_value(v: &JsonValue) -> (res: Option<String>)
    ensures
        ov(res) == query_text(v@),
{
    match v {
        JsonValue::Str(s) => Some(s.clone()),
        JsonValue::Int(i) => Some(i64_text(*i)),
        JsonValue::Number(t) => Some(t.clone()),
        JsonValue::Bool(b) => Some(
            if *b {
                "true".to_owned()
            } else {
                "false".to_owned()
            },
        ),
        JsonValue::Null => Some("null".to_owned()),
        _ => None,
    }
}

/// The serialized URL of `raw` where the `url` crate parses it.
pub uninterp spec fn url_text_of(raw: Seq<char>) -> Option<Seq<char>>;

/// `reqwest::Url::parse(raw)` and the parsed URL's text (`Url::as_str`), or
/// `None` where it does not parse (exactly where `url_scheme` finds no
/// scheme). The URL's normal form is named, not restated.
#[verifier::external_body]
fn url_text(raw: &str) -> (res: Option<String>)
    ensures
        ov(res) == url_text_of(raw@),
        res is Some <==> url_scheme_of(raw@) is Some,
{
    match reqwest::Url::parse(raw) {
        Ok(u) => Some(u.as_str().to_owned()),
        Err(_) => None,
    }
}

/// The URL of `raw` with `pairs` appended to its query, where it parses.
pub uninterp spec fn url_with_pairs_of(raw: Seq<char>, pairs: Seq<(Seq<char>, Seq<char>)>) -> Option<Seq<char>>;

/// `reqwest::Url::parse(raw)`, then `query_pairs_mut().extend_pairs(pairs)`
/// (form-urlencoded, appended to any existing query; a `?` is added even for
/// no pairs), and the resulting text; `None` where `raw` does not parse
/// (exactly where `url_scheme` finds no scheme). The encoding is named, not
/// restated.
#[verifier::external_body]
fn url_with_pairs(raw: &str, pairs: &Vec<(String, String)>) -> (res: Option<String>)
    ensures
        ov(res) == url_with_pairs_of(raw@, pair_views(pairs@)),
        res is Some <==> url_scheme_of(raw@) is Some,
{
    match reqwest::Url::parse(raw) {
        Ok(mut u) => {
            u.query_pairs_mut().extend_pairs(pairs.iter().map(|p| (p.0.as_str(), p.1.as_str())));
            Some(u.as_str().to_owned())
        },
        Err(_) => None,
    }
}

/// The cashier page to open: the plan's address as the URL parser writes it,
/// with the query pairs appended where the reply's `data` was an object. It
/// is found for every address that the plan accepted.
pub fn checkout_page(url: &str, pairs: &Option<Vec<(String, String)>>) -> (res: Result<String, AppError>)
    ensures
        match (match pairs {
            Some(p) => url_with_pairs_of(url@, pair_views(p@)),
            None => url_text_of(url@),
        }) {
            Some(t) => res matches Ok(r) && r@ == t,
            None => res matches Err(e) && e@ == message("支付页面地址异常"@),
        },
        url_scheme_of(url@) is Some ==> res is Ok,
{
    let page = match pairs {
        Some(p) => url_with_pairs(url, p),
        None => url_text(url),
    };
    match page {
        Some(t) => Ok(t),
        None => Err(AppError::msg("支付页面地址异常")),
    }
}

/// The field to reveal, trimmed and lower-cased: only `username` or `password`.
pub fn reveal_field(field: &str) -> (res: Result<String, AppError>)
    ensures
        ({
            let f = ascii_lower(trim(field@));
            if f == "username"@ || f == "password"@ {
                res matches Ok(r) && r@ == f
            } else {
                res matches Err(e) && e@ == message("仅支持读取账号或密码"@)
            }
        }),
{
    let t = trim_str(field);
    let f = ascii_lower_str(t.as_str());
    if !str_eq(f.as_str(), "username") && !str_eq(f.as_str(), "password") {
        return Err(AppError::msg("仅支持读取账号或密码"));
    }
    Ok(f)
}

/// The item to reveal, trimmed; a blank id is refused.
pub fn reveal_item_id(item_id: &str) -> (res: Result<String, AppError>)
    ensures
        if trim(item_id@).len() > 0 {
            res matches Ok(r) && r@ == trim(item_id@)
        } else {
            res matches Err(e) && e@ == message("ID 条目标识不能为空"@)
        },
{
    let t = trim_str(item_id);
    if t.as_str().is_empty() {
        Err(AppError::msg("ID 条目标识不能为空"))
    } else {
        Ok(t)
    }
}

/// The path that reveals a field of an item, with the id percent-encoded.
pub fn reveal_path(item_id: &str) -> (res: String)
    ensures
        res@ == "/api/open/id/items/"@ + encode_bytes(item_id.spec_bytes()) + "/reveal"@,
{
    let enc = encode_path_segment(item_id);
    concat3("/api/open/id/items/", enc.as_str(), "/reveal")
}

/// The reveal request.
pub fn reveal_body(field: &str) -> (res: JsonValue)
    ensures
        res@ == Json::Object(seq![("field"@, Json::Str(field@))]),
{
    let mut e: Vec<(String, JsonValue)> = Vec::new();
    push_field(&mut e, "field", JsonValue::string(field));
    assert(json_pairs(e@) =~= seq![("field"@, Json::Str(field@))]);
    JsonValue::Object(e)
}

/// A revealed value must hold more than white space.
pub fn revealed_value(value: String) -> (res: Result<String, AppError>)
    ensures
        if trim(value@).len() > 0 {
            res matches Ok(r) && r@ == value@
        } else {
            res matches Err(e) && e@ == message("服务端未返回可复制内容"@)
        },
{
    let t = trim_str(value.as_str());
    if t.as_str().is_empty() {
        Err(AppError::msg("服务端未返回可复制内容"))
    } else {
        Ok(value)
    }
}

/// The `items` of a token list, or an empty array.
pub fn token_items(data: JsonValue) -> (res: JsonValue)
    ensures
        res@ == (match data@.get("items"@) {
            Some(x) => x,
            None => Json::Array(Seq::empty()),
        }),
{
    match data.into_field("items") {
        Some(x) => x,
        None => JsonValue::Array(Vec::new()),
    }
}

/// The request that creates an API key named `name`: no expiry and no quota of
/// its own (the account's balance limits spending), no model limits.
pub open spec fn token_body_of(name: Seq<char>) -> Json {
    Json::Object(
        seq![
            ("name"@, Json::Str(name)),
            ("expired_time"@, Json::Int(-1i64)),
            ("remain_quota"@, Json::Int(0)),
            ("unlimited_quota"@, Json::Bool(true)),
            ("model_limits_enabled"@, Json::Bool(false)),
            ("model_limits"@, Json::Str(""@)),
            ("group"@, Json::Str(""@)),
        ],
    )
}

/// The request that creates an API key named `name`.
pub fn create_token_body(name: &str) -> (res: JsonValue)
    ensures
        res@ == token_body_of(name@),
{
    let mut e: Vec<(String, JsonValue)> = Vec::new();
    push_field(&mut e, "name", JsonValue::string(name));
    push_field(&mut e, "expired_time", JsonValue::Int(-1));
    push_field(&mut e, "remain_quota", JsonValue::Int(0));
    push_field(&mut e, "unlimited_quota", JsonValue::Bool(true));
    push_field(&mut e, "model_limits_enabled", JsonValue::Bool(false));
    push_field(&mut e, "model_limits", JsonValue::string(""));
    push_field(&mut e, "group", JsonValue::string(""));
    assert(json_pairs(e@) =~= token_body_of(name@)->Object_0);
    JsonValue::Object(e)
}

/// The path that hands out the full key of token `token_id`.
pub fn token_key_path(token_id: i64) -> (res: String)
    ensures
        res@ == "/api/token/"@ + dec_int(token_id as int) + "/key"@,
{
    let id = i64_text(token_id);
    concat3("/api/token/", id.as_str(), "/key")
}

/// A key as used: with its `sk-` prefix, added where the server left it out.
pub open spec fn full_key(raw: Seq<char>) -> Seq<char> {
    if starts_with(raw, "sk-"@) {
        raw
    } else {
        "sk-"@ + raw
    }
}

/// The full key in a key reply; the server leaves out the `sk-` prefix.
pub fn full_key_from_data(data: &JsonValue) -> (res: Result<String, AppError>)
    ensures
        match get_str(data@, "key"@) {
            Some(k) => res matches Ok(r) && r@ == full_key(k),
            None => res matches Err(e) && e@ == message("取回令牌 key 失败：响应格式异常"@),
        },
{
    let raw = match field_str(data, "key") {
        Some(k) => k,
        None => {
            return Err(AppError::msg("取回令牌 key 失败：响应格式异常"));
        },
    };
    if starts_with_str(raw.as_str(), "sk-") {
        Ok(raw)
    } else {
        Ok(concat2("sk-", raw.as_str()))
    }
}

/// A key shown with its middle hidden.
pub fn mask_key(key: &str) -> (res: String)
    requires
        key.spec_bytes().len() <= usize::MAX,
        crate::text::mask_slices_ok(key, 8, 6),
    ensures
        res@ == crate::text::masked(key.spec_bytes(), 8, 6),
{
    crate::text::mask_secret(key, 8, 6)
}

/// The fixed name of the account's client key.
pub const ACCOUNT_CLIENT_TOKEN_NAME: &'static str = "Smart Agent 客户端";

/// A token's `id`.
pub open spec fn token_id_of(t: Json) -> Option<i64> {
    get_i64(t, "id"@)
}

/// A token's `name`, or the empty string.
pub open spec fn token_name_of(t: Json) -> Seq<char> {
    str_or_empty(t, "name"@)
}

/// A name that an earlier release gave a per-device key: a UUID, or a name
/// starting with `smart-agent-` in any case.
pub open spec fn legacy_device_name(name: Seq<char>) -> bool {
    uuid_accepts(name) || starts_with(ascii_lower(name), "smart-agent-"@)
}

/// The key chosen among `ts`: those matching (the fixed name, or a legacy
/// device name), with an id, the smallest id first seen.
pub open spec fn oldest(ts: Seq<Json>, legacy: bool) -> Option<(i64, Seq<char>)>
    decreases ts.len(),
{
    if ts.len() == 0 {
        None
    } else {
        let r = oldest(ts.drop_last(), legacy);
        let t = ts.last();
        let hit = if legacy {
            legacy_device_name(token_name_of(t))
        } else {
            token_name_of(t) == ACCOUNT_CLIENT_TOKEN_NAME@
        };
        match token_id_of(t) {
            Some(id) => if hit {
                match r {
                    Some(p) => if p.0 <= id {
                        r
                    } else {
                        Some((id, token_name_of(t)))
                    },
                    None => Some((id, token_name_of(t))),
                }
            } else {
                r
            },
            None => r,
        }
    }
}

/// The first token among `ts` whose id is `id`.
pub open spec fn first_with_id(ts: Seq<Json>, id: i64) -> Option<Json>
    decreases ts.len(),
{
    if ts.len() == 0 {
        None
    } else {
        match first_with_id(ts.drop_last(), id) {
            Some(t) => Some(t),
            None => if token_id_of(ts.last()) == Some(id) {
                Some(ts.last())
            } else {
                None
            },
        }
    }
}

/// The account's client key: the oldest key with the fixed name; else the key
/// this device used before; else the oldest legacy per-device key. So a
/// reinstall or another device of the same account keeps using one key.
pub open spec fn chosen_client_token(items: Json, local: Option<i64>) -> Option<(i64, Seq<char>)> {
    match items.as_array() {
        None => None,
        Some(ts) => match oldest(ts, false) {
            Some(found) => Some(found),
            None => {
                let by_local = match local {
                    Some(id) => match first_with_id(ts, id) {
                        Some(t) => Some((id, token_name_of(t))),
                        None => None,
                    },
                    None => None,
                };
                match by_local {
                    Some(f) => Some(f),
                    None => oldest(ts, true),
                }
            },
        },
    }
}

fn is_legacy_device_token(name: &str) -> (res: bool)
    ensures
        res == legacy_device_name(name@),
{
    if uuid_parses(name) {
        return true;
    }
    let lower = ascii_lower_str(name);
    starts_with_str(lower.as_str(), "smart-agent-")
}

fn oldest_token(ts: &Vec<JsonValue>, legacy: bool) -> (res: Option<(i64, String)>)
    ensures
        match res {
            Some(r) => oldest(crate::json::json_seq(ts@), legacy) == Some((r.0, r.1@)),
            None => oldest(crate::json::json_seq(ts@), legacy) is None,
        },
{
    let ghost js = crate::json::json_seq(ts@);
    proof {
        crate::json::lemma_json_seq(ts@);
    }
    let mut best: Option<(i64, String)> = None;
    let mut i: usize = 0;
    while i < ts.len()
        invariant
            js == crate::json::json_seq(ts@),
            js.len() == ts@.len(),
            forall|j: int| 0 <= j < ts@.len() ==> #[trigger] js[j] == ts@[j]@,
            i <= ts@.len(),
            match best {
                Some(r) => oldest(js.take(i as int), legacy) == Some((r.0, r.1@)),
                None => oldest(js.take(i as int), legacy) is None,
            },
        decreases ts@.len() - i,
    {
        let t = &ts[i];
        proof {
            assert(js.take(i + 1).drop_last() =~= js.take(i as int));
            assert(js.take(i + 1).last() == t@);
        }
        let name = field_str_or_empty(t, "name");
        let hit = if legacy {
            is_legacy_device_token(name.as_str())
        } else {
            str_eq(name.as_str(), ACCOUNT_CLIENT_TOKEN_NAME)
        };
        match field_i64(t, "id") {
            Some(id) => {
                if hit {
                    let replace = match &best {
                        Some(b) => !(b.0 <= id),
                        None => true,
                    };
                    if replace {
                        best = Some((id, name));
                    }
                }
            },
            None => {},
        }
        i += 1;
    }
    assert(js.take(ts@.len() as int) =~= js);
    best
}

fn token_with_id(ts: &Vec<JsonValue>, id: i64) -> (res: Option<usize>)
    ensures
        match res {
            Some(i) => i < ts@.len() && first_with_id(crate::json::json_seq(ts@), id) == Some(ts@[i as int]@),
            None => first_with_id(crate::json::json_seq(ts@), id) is None,
        },
{
    let ghost js = crate::json::json_seq(ts@);
    proof {
        crate::json::lemma_json_seq(ts@);
    }
    let mut i: usize = 0;
    while i < ts.len()
        invariant
            js == crate::json::json_seq(ts@),
            js.len() == ts@.len(),
            forall|j: int| 0 <= j < ts@.len() ==> #[trigger] js[j] == ts@[j]@,
            i <= ts@.len(),
            first_with_id(js.take(i as int), id) is None,
        decreases ts@.len() - i,
    {
        proof {
            assert(js.take(i + 1).drop_last() =~= js.take(i as int));
            assert(js.take(i + 1).last() == ts@[i as int]@);
        }
        if field_i64(&ts[i], "id") == Some(id) {
            proof {
                lemma_first_with_id_extend(js, i as int + 1, id);
            }
            return Some(i);
        }
        i += 1;
    }
    assert(js.take(ts@.len() as int) =~= js);
    None
}

proof fn lemma_first_with_id_extend(js: Seq<Json>, n: int, id: i64)
    requires
        0 < n <= js.len(),
        first_with_id(js.take(n), id) is Some,
    ensures
        first_with_id(js, id) == first_with_id(js.take(n), id),
    decreases js.len() - n,
{
    if n < js.len() {
        assert(js.take(n + 1).drop_last() =~= js.take(n));
        lemma_first_with_id_extend(js, n + 1, id);
    } else {
        assert(js.take(n) =~= js);
    }
}

/// Picks the account's client key among the listed keys (see
/// `chosen_client_token`); `local_token_id` is the key this device used before.
pub fn find_account_client_token(items: &JsonValue, local_token_id: Option<i64>) -> (res: Option<(i64, String)>)
    ensures
        match res {
            Some(r) => chosen_client_token(items@, local_token_id) == Some((r.0, r.1@)),
            None => chosen_client_token(items@, local_token_id) is None,
        },
{
    let ts = match items.as_array() {
        Some(a) => a,
        None => {
            return None;
        },
    };
    match oldest_token(ts, false) {
        Some(found) => {
            return Some(found);
        },
        None => {},
    }
    match local_token_id {
        Some(local_id) => match token_with_id(ts, local_id) {
            Some(i) => {
                return Some((local_id, field_str_or_empty(&ts[i], "name")));
            },
            None => {},
        },
        None => {},
    }
    oldest_token(ts, true)
}

/// Token `t` counts in a search for the fixed name (`legacy` false) or for a
/// legacy per-device name (`legacy` true).
pub open spec fn token_hit(t: Json, legacy: bool) -> bool {
    if legacy {
        legacy_device_name(token_name_of(t))
    } else {
        token_name_of(t) == ACCOUNT_CLIENT_TOKEN_NAME@
    }
}

proof fn lemma_oldest(ts: Seq<Json>, legacy: bool)
    ensures
        oldest(ts, legacy) matches Some(p) ==> exists|i: int|
            0 <= i < ts.len() && token_id_of(#[trigger] ts[i]) == Some(p.0) && token_name_of(ts[i]) == p.1
                && token_hit(ts[i], legacy),
        oldest(ts, legacy) matches Some(p) ==> forall|i: int|
            0 <= i < ts.len() && token_hit(#[trigger] ts[i], legacy) && token_id_of(ts[i]) is Some
                ==> p.0 <= token_id_of(ts[i])->0,
        (exists|i: int| 0 <= i < ts.len() && token_hit(#[trigger] ts[i], legacy) && token_id_of(ts[i]) is Some)
            ==> oldest(ts, legacy) is Some,
    decreases ts.len(),
{
    if ts.len() > 0 {
        let p = ts.drop_last();
        lemma_oldest(p, legacy);
        assert forall|i: int| 0 <= i < p.len() implies #[trigger] p[i] == ts[i] by {}
        if let Some(q) = oldest(ts, legacy) {
            if oldest(p, legacy) == Some(q) {
                let i = choose|i: int|
                    0 <= i < p.len() && token_id_of(#[trigger] p[i]) == Some(q.0) && token_name_of(p[i]) == q.1
                        && token_hit(p[i], legacy);
                assert(ts[i] == p[i]);
            } else {
                assert(token_id_of(ts[ts.len() - 1]) == Some(q.0));
            }
            assert forall|i: int|
                0 <= i < ts.len() && token_hit(#[trigger] ts[i], legacy) && token_id_of(ts[i]) is Some
                implies q.0 <= token_id_of(ts[i])->0 by {
                if i < p.len() {
                    assert(p[i] == ts[i]);
                    assert(oldest(p, legacy) is Some);
                }
            }
        }
        if exists|i: int| 0 <= i < ts.len() && token_hit(#[trigger] ts[i], legacy) && token_id_of(ts[i]) is Some {
            let i = choose|i: int| 0 <= i < ts.len() && token_hit(#[trigger] ts[i], legacy) && token_id_of(ts[i]) is Some;
            if i < p.len() {
                assert(p[i] == ts[i]);
            }
        }
    }
}

proof fn lemma_first_with_id(ts: Seq<Json>, id: i64)
    ensures
        first_with_id(ts, id) matches Some(t) ==> exists|i: int|
            0 <= i < ts.len() && #[trigger] ts[i] == t && token_id_of(t) == Some(id) && forall|j: int|
                0 <= j < i ==> token_id_of(#[trigger] ts[j]) != Some(id),
        first_with_id(ts, id) is None ==> forall|j: int| 0 <= j < ts.len() ==> token_id_of(#[trigger] ts[j]) != Some(id),
    decreases ts.len(),
{
    if ts.len() > 0 {
        let p = ts.drop_last();
        lemma_first_with_id(p, id);
        if let Some(t) = first_with_id(p, id) {
            let i = choose|i: int|
                0 <= i < p.len() && #[trigger] p[i] == t && token_id_of(t) == Some(id) && forall|j: int|
                    0 <= j < i ==> token_id_of(#[trigger] p[j]) != Some(id);
            assert(ts[i] == p[i]);
            assert forall|j: int| 0 <= j < i implies token_id_of(#[trigger] ts[j]) != Some(id) by {
                assert(ts[j] == p[j]);
            }
        } else {
            assert forall|j: int| 0 <= j < ts.len() - 1 implies token_id_of(#[trigger] ts[j]) != Some(id) by {
                assert(ts[j] == p[j]);
            }
            assert(ts[ts.len() - 1] == ts.last());
        }
    }
}

/// The key chosen is one of the account's listed keys, with its id and name.
pub proof fn law_chosen_token_is_listed(items: Json, local: Option<i64>)
    ensures
        chosen_client_token(items, local) matches Some(p) ==> (items.as_array() matches Some(ts)
            && exists|i: int| 0 <= i < ts.len() && token_id_of(#[trigger] ts[i]) == Some(p.0) && token_name_of(ts[i]) == p.1),
{
    if let Some(ts) = items.as_array() {
        lemma_oldest(ts, false);
        lemma_oldest(ts, true);
        if let Some(id) = local {
            lemma_first_with_id(ts, id);
        }
    }
}

/// Where the account holds a key with the fixed name, that name wins whatever
/// key this device used before: the oldest such key is chosen, the same for
/// every device.
pub proof fn law_fixed_name_wins(items: Json, local: Option<i64>, other: Option<i64>)
    requires
        items.as_array() matches Some(ts) && exists|i: int|
            0 <= i < ts.len() && token_id_of(#[trigger] ts[i]) is Some && token_name_of(ts[i]) == ACCOUNT_CLIENT_TOKEN_NAME@,
    ensures
        chosen_client_token(items, local) matches Some(p) && p.1 == ACCOUNT_CLIENT_TOKEN_NAME@,
        chosen_client_token(items, local) == chosen_client_token(items, other),
        forall|i: int|
            0 <= i < items.as_array()->0.len() && token_name_of(#[trigger] items.as_array()->0[i])
                == ACCOUNT_CLIENT_TOKEN_NAME@ && token_id_of(items.as_array()->0[i]) is Some
                ==> (chosen_client_token(items, local)->0).0 <= token_id_of(items.as_array()->0[i])->0,
{
    let ts = items.as_array()->0;
    lemma_oldest(ts, false);
    let i = choose|i: int|
        0 <= i < ts.len() && token_id_of(#[trigger] ts[i]) is Some && token_name_of(ts[i]) == ACCOUNT_CLIENT_TOKEN_NAME@;
    assert(token_hit(ts[i], false));
    let p = oldest(ts, false)->0;
    let j = choose|j: int|
        0 <= j < ts.len() && token_id_of(#[trigger] ts[j]) == Some(p.0) && token_name_of(ts[j]) == p.1
            && token_hit(ts[j], false);
    assert forall|k: int|
        0 <= k < ts.len() && token_name_of(#[trigger] ts[k]) == ACCOUNT_CLIENT_TOKEN_NAME@ && token_id_of(ts[k]) is Some
        implies p.0 <= token_id_of(ts[k])->0 by {
        assert(token_hit(ts[k], false));
    }
}

/// The account holds a key with id `id`.
pub open spec fn lists_id(ts: Seq<Json>, id: i64) -> bool {
    exists|i: int| 0 <= i < ts.len() && token_id_of(#[trigger] ts[i]) == Some(id)
}

/// Where the account holds no key with the fixed name, the key this device
/// used before is kept wherever it is still listed (with the name of the first
/// entry listed with its id); otherwise the oldest legacy per-device key is
/// chosen: one with a legacy name and the least id among them, first listed on
/// a tie, and there is one exactly where some legacy-named key has an id.
pub proof fn law_known_then_legacy_key(items: Json, local: Option<i64>)
    requires
        items.as_array() matches Some(ts) && forall|i: int|
            0 <= i < ts.len() && token_id_of(#[trigger] ts[i]) is Some ==> token_name_of(ts[i]) != ACCOUNT_CLIENT_TOKEN_NAME@,
    ensures
        ({
            let ts = items.as_array()->0;
            let c = chosen_client_token(items, local);
            if local is Some && lists_id(ts, local->0) {
                c matches Some(p) && p.0 == local->0 && exists|i: int|
                    0 <= i < ts.len() && token_id_of(#[trigger] ts[i]) == local && token_name_of(ts[i]) == p.1
                        && forall|j: int| 0 <= j < i ==> token_id_of(#[trigger] ts[j]) != local
            } else {
                &&& c == oldest(ts, true)
                &&& c matches Some(p) ==> exists|i: int|
                    0 <= i < ts.len() && token_id_of(#[trigger] ts[i]) == Some(p.0) && token_name_of(ts[i]) == p.1
                        && legacy_device_name(p.1)
                &&& c matches Some(p) ==> forall|i: int|
                    0 <= i < ts.len() && legacy_device_name(token_name_of(#[trigger] ts[i])) && token_id_of(ts[i]) is Some
                        ==> p.0 <= token_id_of(ts[i])->0
                &&& c is Some <==> exists|i: int|
                    0 <= i < ts.len() && legacy_device_name(token_name_of(#[trigger] ts[i])) && token_id_of(ts[i]) is Some
            }
        }),
{
    let ts = items.as_array()->0;
    lemma_oldest(ts, false);
    lemma_oldest(ts, true);
    if oldest(ts, false) is Some {
        let p = oldest(ts, false)->0;
        let i = choose|i: int|
            0 <= i < ts.len() && token_id_of(#[trigger] ts[i]) == Some(p.0) && token_name_of(ts[i]) == p.1
                && token_hit(ts[i], false);
        assert(false);
    }
    if let Some(id) = local {
        lemma_first_with_id(ts, id);
        if lists_id(ts, id) {
            let k = choose|k: int| 0 <= k < ts.len() && token_id_of(#[trigger] ts[k]) == Some(id);
            assert(first_with_id(ts, id) is Some);
        } else {
            assert(first_with_id(ts, id) is None);
        }
    }
    assert forall|i: int|
        0 <= i < ts.len() && legacy_device_name(token_name_of(#[trigger] ts[i])) && token_id_of(ts[i]) is Some
        implies token_hit(ts[i], true) by {}
    if let Some(p) = oldest(ts, true) {
        let i = choose|i: int|
            0 <= i < ts.len() && token_id_of(#[trigger] ts[i]) == Some(p.0) && token_name_of(ts[i]) == p.1
                && token_hit(ts[i], true);
        assert(legacy_device_name(p.1));
    }
}

/// The `sk-` prefix is always present, and adding it is done once only.
pub proof fn law_full_key_prefixed(raw: Seq<char>)
    ensures
        starts_with(full_key(raw), "sk-"@),
        full_key(full_key(raw)) == full_key(raw),
{
    reveal_strlit("sk-");
    if !starts_with(raw, "sk-"@) {
        assert(("sk-"@ + raw).take(3) =~= "sk-"@);
    }
}

/// The open platform's overview, as the site publishes it.
#[derive(Debug)]
pub struct OpenPlatformOverview {
    pub enabled: bool,
    pub id_enabled: bool,
    pub id_unlocked: bool,
    pub unlock_label: String,
    pub unlock_hint: String,
    pub key_enabled: bool,
    pub docs_url: String,
    pub one_models: Vec<String>,
    pub last_sync_time: String,
    pub id_count: i64,
}

/// An entry of the open platform's ID list (its secret fields stay masked).
#[derive(Debug)]
pub struct OpenIdItem {
    pub id: String,
    pub label: String,
    pub masked_username: String,
    pub region: String,
    pub status: String,
    pub last_check: String,
}

/// A revealed secret field of an ID entry.
#[derive(Debug)]
pub struct OpenIdReveal {
    pub value: String,
}

/// The outcome of preparing the account's client key.
#[derive(Debug)]
pub struct ProvisionResult {
    pub token_id: i64,
    pub token_name: String,
    /// The key with its middle hidden, for display only.
    pub masked_key: String,
    pub created: bool,
}

/// The request that creates the account's client key.
pub fn client_token_body() -> (res: JsonValue)
    ensures
        res@ == token_body_of(ACCOUNT_CLIENT_TOKEN_NAME@),
{
    create_token_body(ACCOUNT_CLIENT_TOKEN_NAME)
}

/// After creating the client key it must be found among the listed keys.
pub fn created_client_token(items: &JsonValue) -> (res: Result<(i64, String), AppError>)
    ensures
        match chosen_client_token(items@, None) {
            Some(f) => res matches Ok(r) && f == (r.0, r.1@),
            None => res matches Err(e) && e@ == message(
                "客户端密钥已创建，但暂时无法读取，请刷新后重试"@,
            ),
        },
{
    match find_account_client_token(items, None) {
        Some(f) => Ok(f),
        None => Err(AppError::msg("客户端密钥已创建，但暂时无法读取，请刷新后重试")),
    }
}

/// Keeps the prepared key in the local state; nothing else changes.
pub fn remember_key(store: &mut LocalStore, key: String, token_id: i64, token_name: String)
    ensures
        ov(final(store).sk_key) == Some(key@),
        final(store).token_id == Some(token_id),
        ov(final(store).token_name) == Some(token_name@),
        *final(store) == (LocalStore {
            sk_key: final(store).sk_key,
            token_id: final(store).token_id,
            token_name: final(store).token_name,
            ..*old(store)
        }),
{
    store.sk_key = Some(key);
    store.token_id = Some(token_id);
    store.token_name = Some(token_name);
}

/// The state of this device's key on the server.
#[derive(Debug)]
pub struct DeviceStatus {
    pub enabled: bool,
    pub status: Option<i64>,
    pub auth_expired: bool,
}

/// A reply status that means the access token is no longer accepted.
pub fn is_auth_rejection(http_status: u16) -> (res: bool)
    ensures
        res == (http_status == 401 || http_status == 403),
{
    http_status == 401 || http_status == 403
}

/// The status when the access token was rejected.
pub fn device_status_expired() -> (res: DeviceStatus)
    ensures
        !res.enabled && res.status is None && res.auth_expired,
{
    DeviceStatus { enabled: false, status: None, auth_expired: true }
}

/// The device check needs an access token.
pub fn device_check_credential(pat: &Option<String>) -> (res: Result<String, AppError>)
    ensures
        match ov(*pat) {
            Some(p) => res matches Ok(r) && r@ == p,
            None => res matches Err(e) && e@ == message("尚未登录"@),
        },
{
    match pat {
        Some(p) => Ok(p.clone()),
        None => Err(AppError::msg("尚未登录")),
    }
}

/// This device's key among `ts`: the first whose id is the local id or whose
/// name is the local name.
pub open spec fn device_token(ts: Seq<Json>, id: Option<i64>, name: Option<Seq<char>>) -> Option<Json>
    decreases ts.len(),
{
    if ts.len() == 0 {
        None
    } else {
        match device_token(ts.drop_last(), id, name) {
            Some(t) => Some(t),
            None => {
                let t = ts.last();
                let by_id = match id {
                    Some(i) => token_id_of(t) == Some(i),
                    None => false,
                };
                let by_name = match name {
                    Some(n) => get_str(t, "name"@) == Some(n),
                    None => false,
                };
                if by_id || by_name {
                    Some(t)
                } else {
                    None
                }
            },
        }
    }
}

/// The `status` of this device's key in a token list.
pub open spec fn device_key_status(data: Json, id: Option<i64>, name: Option<Seq<char>>) -> Option<i64> {
    match data.get("items"@) {
        Some(x) => match x.as_array() {
            Some(ts) => match device_token(ts, id, name) {
                Some(t) => get_i64(t, "status"@),
                None => None,
            },
            None => None,
        },
        None => None,
    }
}

proof fn lemma_device_token_extend(js: Seq<Json>, n: int, id: Option<i64>, name: Option<Seq<char>>)
    requires
        0 < n <= js.len(),
        device_token(js.take(n), id, name) is Some,
    ensures
        device_token(js, id, name) == device_token(js.take(n), id, name),
    decreases js.len() - n,
{
    if n < js.len() {
        assert(js.take(n + 1).drop_last() =~= js.take(n));
        lemma_device_token_extend(js, n + 1, id, name);
    } else {
        assert(js.take(n) =~= js);
    }
}

fn find_device_token(ts: &Vec<JsonValue>, token_id: Option<i64>, token_name: &Option<String>) -> (res: Option<usize>)
    ensures
        match res {
            Some(i) => i < ts@.len() && device_token(crate::json::json_seq(ts@), token_id, ov(*token_name))
                == Some(ts@[i as int]@),
            None => device_token(crate::json::json_seq(ts@), token_id, ov(*token_name)) is None,
        },
{
    let ghost js = crate::json::json_seq(ts@);
    proof {
        crate::json::lemma_json_seq(ts@);
    }
    let mut i: usize = 0;
    while i < ts.len()
        invariant
            js == crate::json::json_seq(ts@),
            js.len() == ts@.len(),
            forall|j: int| 0 <= j < ts@.len() ==> #[trigger] js[j] == ts@[j]@,
            i <= ts@.len(),
            device_token(js.take(i as int), token_id, ov(*token_name)) is None,
        decreases ts@.len() - i,
    {
        let t = &ts[i];
        proof {
            assert(js.take(i + 1).drop_last() =~= js.take(i as int));
            assert(js.take(i + 1).last() == t@);
        }
        let by_id = match token_id {
            Some(id) => field_i64(t, "id") == Some(id),
            None => false,
        };
        let by_name = match token_name {
            Some(n) => match field_str(t, "name") {
                Some(v) => str_eq(v.as_str(), n.as_str()),
                None => false,
            },
            None => false,
        };
        if by_id || by_name {
            proof {
                lemma_device_token_extend(js, i as int + 1, token_id, ov(*token_name));
            }
            return Some(i);
        }
        i += 1;
    }
    assert(js.take(ts@.len() as int) =~= js);
    None
}

/// The state of this device's key: enabled where its status is 1.
pub fn device_status_from_data(data: &JsonValue, token_id: Option<i64>, token_name: &Option<String>) -> (res: DeviceStatus)
    ensures
        res.status == device_key_status(data@, token_id, ov(*token_name)),
        res.enabled == (res.status == Some(1i64)),
        !res.auth_expired,
{
    let status: Option<i64> = match data.get("items") {
        Some(x) => match x.as_array() {
            Some(ts) => match find_device_token(ts, token_id, token_name) {
                Some(i) => field_i64(&ts[i], "status"),
                None => None,
            },
            None => None,
        },
        None => None,
    };
    DeviceStatus { enabled: status == Some(1i64), status, auth_expired: false }
}

/// The sign-up request; an invitation code (trimmed) is sent only where one is given.
pub fn register_body(username: &str, password: &str, invite_code: Option<&str>) -> (res: JsonValue)
    ensures
        ({
            let code = match invite_code {
                Some(c) => trim(c@),
                None => Seq::<char>::empty(),
            };
            res@ == Json::Object(
                if code.len() == 0 {
                    seq![("username"@, Json::Str(username@)), ("password"@, Json::Str(password@))]
                } else {
                    seq![
                        ("username"@, Json::Str(username@)),
                        ("password"@, Json::Str(password@)),
                        ("aff_code"@, Json::Str(code)),
                    ]
                },
            )
        }),
{
    let code = match invite_code {
        Some(c) => trim_str(c),
        None => String::new(),
    };
    let mut e: Vec<(String, JsonValue)> = Vec::new();
    push_field(&mut e, "username", JsonValue::string(username));
    push_field(&mut e, "password", JsonValue::string(password));
    if !code.as_str().is_empty() {
        let ghost c = code@;
        push_field(&mut e, "aff_code", JsonValue::Str(code));
        assert(json_pairs(e@) =~= seq![
            ("username"@, Json::Str(username@)),
            ("password"@, Json::Str(password@)),
            ("aff_code"@, Json::Str(c)),
        ]);
    } else {
        assert(json_pairs(e@) =~= seq![("username"@, Json::Str(username@)), ("password"@, Json::Str(password@))]);
    }
    JsonValue::Object(e)
}

/// Only `http` and `https` links open in the browser; the link is trimmed.
pub fn check_external_url(url: &str) -> (res: Result<String, AppError>)
    ensures
        ({
            let t = trim(url@);
            let l = ascii_lower(t);
            if t.len() == 0 {
                res matches Err(e) && e@ == message("链接为空"@)
            } else if starts_with(l, "https://"@) || starts_with(l, "http://"@) {
                res matches Ok(r) && r@ == t
            } else {
                res matches Err(e) && e@ == message("仅允许打开 http(s) 链接"@)
            }
        }),
{
    let t = trim_str(url);
    if t.as_str().is_empty() {
        return Err(AppError::msg("链接为空"));
    }
    let l = ascii_lower_str(t.as_str());
    if !(starts_with_str(l.as_str(), "https://") || starts_with_str(l.as_str(), "http://")) {
        return Err(AppError::msg("仅允许打开 http(s) 链接"));
    }
    Ok(t)
}

} // verus!
