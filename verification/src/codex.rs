//! Codex environment decisions: the login state in `auth.json`, the model
//! catalog that the setup writes, and the CC Switch records kept in step.

use vstd::prelude::*;
use crate::codex_config::{
    build_config_or_fresh, build_config_table, config_without_smartagent_live_token, merged_config,
    points_to_site, providers_type_error, setup_or_fresh, table_points_to_smartagent, without_token,
};
use crate::error::{message, AppError};
use crate::json::{json_pairs, json_seq, lemma_json_pairs, lemma_json_seq, push_field, Json, JsonValue};
use crate::site::SITE_BASE_URL;
use crate::store::{logged_out_state, ov, LocalStore};
use crate::text::{
    ascii_lower, ascii_lower_str, contains_str, contains_sub, first_line_trimmed, lemma_replace_all_removes,
    replace_all,
    parse_i64, parse_i64_str, replace_str, str_eq, trim, trim_str, until_newline,
};
use crate::toml_doc::{as_str, TomlTable, TomlValue};
use vstd::string::StringSliceAdditionalSpecFns;

verus! {

/// `auth.json` holds an official ChatGPT login: a `tokens` field that is a
/// non-empty object, or any value other than an object or null.
pub open spec fn has_chatgpt_login(auth: Json) -> bool {
    match auth.get("tokens"@) {
        Some(Json::Object(e)) => e.len() > 0,
        Some(Json::Null) => false,
        None => false,
        Some(_) => true,
    }
}

/// Whether `auth.json` holds an official ChatGPT login.
pub fn auth_has_chatgpt_login(auth: &JsonValue) -> (res: bool)
    ensures
        res == has_chatgpt_login(auth@),
{
    match auth.get("tokens") {
        Some(JsonValue::Object(e)) => {
            proof {
                lemma_json_pairs(e@);
            }
            e.len() > 0
        },
        Some(JsonValue::Null) => false,
        None => false,
        Some(_) => true,
    }
}

/// The one model that the catalog lists: the default model where it is among
/// `models`, else the first of them, else the default model.
pub open spec fn catalog_model(models: Seq<Seq<char>>, default_model: Seq<char>) -> Seq<char> {
    if models.contains(default_model) {
        default_model
    } else if models.len() > 0 {
        models[0]
    } else {
        default_model
    }
}

pub open spec fn reasoning_level(effort: Seq<char>, description: Seq<char>) -> Json {
    Json::Object(seq![("effort"@, Json::Str(effort)), ("description"@, Json::Str(description))])
}

pub open spec fn reasoning_levels() -> Json {
    Json::Array(
        seq![
            reasoning_level("none"@, "Disable Thinking"@),
            reasoning_level("low"@, "Fast responses with lighter reasoning"@),
            reasoning_level("medium"@, "Balances speed and reasoning depth"@),
            reasoning_level("high"@, "Greater reasoning depth for complex problems"@),
            reasoning_level("xhigh"@, "Extra high reasoning depth"@),
        ],
    )
}

pub open spec fn base_instructions() -> Seq<char> {
    "You are Codex, a coding agent. You and the user share the same workspace and collaborate to achieve the user's goals."@
}

/// The catalog entry for `model`: the native Responses template with the
/// model's names, listed, usable through the API, and with no speed tiers.
pub open spec fn catalog_entry(model: Seq<char>) -> Json {
    Json::Object(
        seq![
            ("slug"@, Json::Str(model)),
            ("display_name"@, Json::Str(model)),
            ("description"@, Json::Str(model)),
            ("base_instructions"@, Json::Str(base_instructions())),
            ("default_reasoning_level"@, Json::Str("high"@)),
            ("supported_reasoning_levels"@, reasoning_levels()),
            ("shell_type"@, Json::Str("shell_command"@)),
            ("visibility"@, Json::Str("list"@)),
            ("supported_in_api"@, Json::Bool(true)),
            ("priority"@, Json::Int(1000)),
            ("supports_reasoning_summaries"@, Json::Bool(true)),
            ("default_reasoning_summary"@, Json::Str("none"@)),
            ("support_verbosity"@, Json::Bool(false)),
            ("truncation_policy"@, Json::Object(seq![("mode"@, Json::Str("bytes"@)), ("limit"@, Json::Int(10000))])),
            ("supports_parallel_tool_calls"@, Json::Bool(false)),
            ("supports_image_detail_original"@, Json::Bool(false)),
            ("context_window"@, Json::Int(262144)),
            ("max_context_window"@, Json::Int(262144)),
            ("effective_context_window_percent"@, Json::Int(95)),
            ("experimental_supported_tools"@, Json::Array(Seq::empty())),
            ("input_modalities"@, Json::Array(seq![Json::Str("text"@), Json::Str("image"@)])),
            ("supports_search_tool"@, Json::Bool(false)),
            ("upgrade"@, Json::Null),
            ("additional_speed_tiers"@, Json::Array(Seq::empty())),
            ("service_tiers"@, Json::Array(Seq::empty())),
            ("availability_nux"@, Json::Null),
        ],
    )
}

/// The catalog file: one entry, for the active model.
pub open spec fn model_catalog(models: Seq<Seq<char>>, default_model: Seq<char>) -> Json {
    Json::Object(seq![("models"@, Json::Array(seq![catalog_entry(catalog_model(models, default_model))]))])
}

/// A catalog field that names the model.
pub open spec fn names_model(k: Seq<char>) -> bool {
    k == "slug"@ || k == "display_name"@ || k == "description"@
}

/// The catalog holds exactly one entry, for the active model: the default
/// model where it is among `models`, else the first of them, else the default
/// model. The entry's `slug`, `display_name` and `description` are all that
/// model's own name (every field under those keys), so Codex lists it by name.
pub proof fn law_catalog_names_the_model(models: Seq<Seq<char>>, default_model: Seq<char>)
    ensures
        ({
            let m = if models.contains(default_model) {
                default_model
            } else if models.len() > 0 {
                models[0]
            } else {
                default_model
            };
            let c = model_catalog(models, default_model);
            let top = c->Object_0;
            let entries = top[0].1->Array_0;
            let e = entries[0]->Object_0;
            &&& c is Object
            &&& top.len() == 1
            &&& top[0].0 == "models"@
            &&& top[0].1 is Array
            &&& entries.len() == 1
            &&& entries[0] is Object
            &&& forall|i: int| 0 <= i < e.len() && names_model(#[trigger] e[i].0) ==> e[i].1 == Json::Str(m)
            &&& exists|i: int| 0 <= i < e.len() && #[trigger] e[i].0 == "slug"@
            &&& exists|i: int| 0 <= i < e.len() && #[trigger] e[i].0 == "display_name"@
            &&& exists|i: int| 0 <= i < e.len() && #[trigger] e[i].0 == "description"@
        }),
{
    reveal_strlit("slug");
    reveal_strlit("display_name");
    reveal_strlit("description");
    reveal_strlit("base_instructions");
    reveal_strlit("default_reasoning_level");
    reveal_strlit("supported_reasoning_levels");
    reveal_strlit("shell_type");
    reveal_strlit("visibility");
    reveal_strlit("supported_in_api");
    reveal_strlit("priority");
    reveal_strlit("supports_reasoning_summaries");
    reveal_strlit("default_reasoning_summary");
    reveal_strlit("support_verbosity");
    reveal_strlit("truncation_policy");
    reveal_strlit("supports_parallel_tool_calls");
    reveal_strlit("supports_image_detail_original");
    reveal_strlit("context_window");
    reveal_strlit("max_context_window");
    reveal_strlit("effective_context_window_percent");
    reveal_strlit("experimental_supported_tools");
    reveal_strlit("input_modalities");
    reveal_strlit("supports_search_tool");
    reveal_strlit("upgrade");
    reveal_strlit("additional_speed_tiers");
    reveal_strlit("service_tiers");
    reveal_strlit("availability_nux");
    reveal_strlit("models");
    let m = catalog_model(models, default_model);
    let e = catalog_entry(m)->Object_0;
    assert(e[0].0 == "slug"@);
    assert(e[1].0 == "display_name"@);
    assert(e[2].0 == "description"@);
    assert forall|i: int| 0 <= i < e.len() && names_model(#[trigger] e[i].0) implies e[i].1 == Json::Str(m) by {
        if i >= 3 {
            assert(!names_model(e[i].0));
        }
    }
}

fn level(effort: &str, description: &str) -> (res: JsonValue)
    ensures
        res@ == reasoning_level(effort@, description@),
{
    let mut e: Vec<(String, JsonValue)> = Vec::new();
    push_field(&mut e, "effort", JsonValue::string(effort));
    push_field(&mut e, "description", JsonValue::string(description));
    proof {
        assert(json_pairs(e@) =~= seq![("effort"@, Json::Str(effort@)), ("description"@, Json::Str(description@))]);
    }
    JsonValue::Object(e)
}

fn levels() -> (res: JsonValue)
    ensures
        res@ == reasoning_levels(),
{
    let mut a: Vec<JsonValue> = Vec::new();
    a.push(level("none", "Disable Thinking"));
    a.push(level("low", "Fast responses with lighter reasoning"));
    a.push(level("medium", "Balances speed and reasoning depth"));
    a.push(level("high", "Greater reasoning depth for complex problems"));
    a.push(level("xhigh", "Extra high reasoning depth"));
    proof {
        reveal_with_fuel(json_seq, 6);
        assert(json_seq(a@) =~= reasoning_levels()->Array_0);
    }
    JsonValue::Array(a)
}

fn empty_array() -> (res: JsonValue)
    ensures
        res@ == Json::Array(Seq::empty()),
{
    JsonValue::Array(Vec::new())
}

/// The catalog entry for `model`.
pub fn catalog_entry_for(model: &str) -> (res: JsonValue)
    ensures
        res@ == catalog_entry(model@),
{
    let mut e: Vec<(String, JsonValue)> = Vec::new();
    push_field(&mut e, "slug", JsonValue::string(model));
    push_field(&mut e, "display_name", JsonValue::string(model));
    push_field(&mut e, "description", JsonValue::string(model));
    push_field(
        &mut e,
        "base_instructions",
        JsonValue::string(
            "You are Codex, a coding agent. You and the user share the same workspace and collaborate to achieve the user's goals.",
        ),
    );
    push_field(&mut e, "default_reasoning_level", JsonValue::string("high"));
    push_field(&mut e, "supported_reasoning_levels", levels());
    push_field(&mut e, "shell_type", JsonValue::string("shell_command"));
    push_field(&mut e, "visibility", JsonValue::string("list"));
    push_field(&mut e, "supported_in_api", JsonValue::Bool(true));
    push_field(&mut e, "priority", JsonValue::Int(1000));
    push_field(&mut e, "supports_reasoning_summaries", JsonValue::Bool(true));
    push_field(&mut e, "default_reasoning_summary", JsonValue::string("none"));
    push_field(&mut e, "support_verbosity", JsonValue::Bool(false));
    let mut tp: Vec<(String, JsonValue)> = Vec::new();
    push_field(&mut tp, "mode", JsonValue::string("bytes"));
    push_field(&mut tp, "limit", JsonValue::Int(10000));
    proof {
        assert(json_pairs(tp@) =~= seq![("mode"@, Json::Str("bytes"@)), ("limit"@, Json::Int(10000))]);
    }
    push_field(&mut e, "truncation_policy", JsonValue::Object(tp));
    push_field(&mut e, "supports_parallel_tool_calls", JsonValue::Bool(false));
    push_field(&mut e, "supports_image_detail_original", JsonValue::Bool(false));
    push_field(&mut e, "context_window", JsonValue::Int(262144));
    push_field(&mut e, "max_context_window", JsonValue::Int(262144));
    push_field(&mut e, "effective_context_window_percent", JsonValue::Int(95));
    push_field(&mut e, "experimental_supported_tools", empty_array());
    let mut modalities: Vec<JsonValue> = Vec::new();
    modalities.push(JsonValue::string("text"));
    modalities.push(JsonValue::string("image"));
    proof {
        reveal_with_fuel(json_seq, 3);
        assert(json_seq(modalities@) =~= seq![Json::Str("text"@), Json::Str("image"@)]);
    }
    push_field(&mut e, "input_modalities", JsonValue::Array(modalities));
    push_field(&mut e, "supports_search_tool", JsonValue::Bool(false));
    push_field(&mut e, "upgrade", JsonValue::Null);
    push_field(&mut e, "additional_speed_tiers", empty_array());
    push_field(&mut e, "service_tiers", empty_array());
    push_field(&mut e, "availability_nux", JsonValue::Null);
    let res = JsonValue::Object(e);
    proof {
        assert(json_pairs(e@) =~= catalog_entry(model@)->Object_0);
    }
    res
}

/// Builds the model catalog that Codex loads: a single entry for the active
/// model, since Codex Desktop's list is unreliable and `config.toml`'s
/// `model` is what takes effect.
pub fn build_model_catalog(models: &Vec<String>, default_model: &str) -> (res: JsonValue)
    ensures
        res@ == model_catalog(models@.map_values(|m: String| m@), default_model@),
{
    let ghost ms = models@.map_values(|m: String| m@);
    let mut found = false;
    let mut i: usize = 0;
    while i < models.len()
        invariant
            i <= models@.len(),
            ms == models@.map_values(|m: String| m@),
            found == (exists|j: int| 0 <= j < i && #[trigger] ms[j] == default_model@),
        decreases models@.len() - i,
    {
        proof {
            assert(ms[i as int] == models@[i as int]@);
        }
        if str_eq(models[i].as_str(), default_model) {
            found = true;
        }
        i += 1;
    }
    proof {
        if found {
            let j = choose|j: int| 0 <= j < models@.len() && #[trigger] ms[j] == default_model@;
            assert(ms.contains(default_model@));
        } else {
            assert(!ms.contains(default_model@));
        }
        if models@.len() > 0 {
            assert(ms[0] == models@[0]@);
        }
    }
    let active: &str = if found {
        default_model
    } else if models.len() > 0 {
        models[0].as_str()
    } else {
        default_model
    };
    let entry = catalog_entry_for(active);
    let mut list: Vec<JsonValue> = Vec::new();
    list.push(entry);
    proof {
        reveal_with_fuel(json_seq, 2);
    }
    let mut e: Vec<(String, JsonValue)> = Vec::new();
    push_field(&mut e, "models", JsonValue::Array(list));
    proof {
        assert(json_seq(list@) =~= seq![catalog_entry(active@)]);
        assert(json_pairs(e@) =~= model_catalog(ms, default_model@)->Object_0);
    }
    JsonValue::Object(e)
}

/// A CC Switch catalog entry for `model`.
pub open spec fn cc_entry(model: Seq<char>) -> Json {
    Json::Object(
        seq![
            ("model"@, Json::Str(model)),
            ("displayName"@, Json::Str(model)),
            ("contextWindow"@, Json::Int(262144)),
            ("inputModalities"@, Json::Array(seq![Json::Str("text"@), Json::Str("image"@)])),
        ],
    )
}

/// The CC Switch catalog entries: one per model whose name is not blank.
pub open spec fn cc_entries(models: Seq<Seq<char>>) -> Seq<Json>
    decreases models.len(),
{
    if models.len() == 0 {
        Seq::empty()
    } else {
        let r = cc_entries(models.drop_last());
        if trim(models.last()).len() == 0 {
            r
        } else {
            r.push(cc_entry(models.last()))
        }
    }
}

/// The model catalog kept in CC Switch's provider record.
pub open spec fn cc_model_catalog(models: Seq<Seq<char>>) -> Json {
    Json::Object(seq![("models"@, Json::Array(cc_entries(models)))])
}

fn cc_entry_for(model: &str) -> (res: JsonValue)
    ensures
        res@ == cc_entry(model@),
{
    let mut m: Vec<JsonValue> = Vec::new();
    m.push(JsonValue::string("text"));
    m.push(JsonValue::string("image"));
    proof {
        reveal_with_fuel(json_seq, 3);
        assert(json_seq(m@) =~= seq![Json::Str("text"@), Json::Str("image"@)]);
    }
    let mut e: Vec<(String, JsonValue)> = Vec::new();
    push_field(&mut e, "model", JsonValue::string(model));
    push_field(&mut e, "displayName", JsonValue::string(model));
    push_field(&mut e, "contextWindow", JsonValue::Int(262144));
    push_field(&mut e, "inputModalities", JsonValue::Array(m));
    assert(json_pairs(e@) =~= cc_entry(model@)->Object_0);
    JsonValue::Object(e)
}

/// The model catalog for CC Switch's record of this provider.
pub fn cc_switch_model_catalog_settings(models: &Vec<String>) -> (res: JsonValue)
    ensures
        res@ == cc_model_catalog(models@.map_values(|m: String| m@)),
{
    let ghost ms = models@.map_values(|m: String| m@);
    let mut list: Vec<JsonValue> = Vec::new();
    let mut i: usize = 0;
    while i < models.len()
        invariant
            i <= models@.len(),
            ms == models@.map_values(|m: String| m@),
            json_seq(list@) == cc_entries(ms.take(i as int)),
        decreases models@.len() - i,
    {
        proof {
            assert(ms.take(i + 1).drop_last() =~= ms.take(i as int));
            assert(ms.take(i + 1).last() == models@[i as int]@);
        }
        let t = trim_str(models[i].as_str());
        if !t.as_str().is_empty() {
            let ghost before = list@;
            let entry = cc_entry_for(models[i].as_str());
            list.push(entry);
            proof {
                crate::json::lemma_json_seq_push(before, entry);
            }
        }
        i += 1;
    }
    assert(ms.take(models@.len() as int) =~= ms);
    let mut e: Vec<(String, JsonValue)> = Vec::new();
    push_field(&mut e, "models", JsonValue::Array(list));
    assert(json_pairs(e@) =~= cc_model_catalog(ms)->Object_0);
    JsonValue::Object(e)
}

/// The `settings_config` of CC Switch's record of this provider: the API key,
/// the configuration text as stored (without the live key), and the catalog.
pub open spec fn cc_settings_config(sk_key: Seq<char>, config_text: Seq<char>, models: Seq<Seq<char>>) -> Json {
    Json::Object(
        seq![
            ("auth"@, Json::Object(seq![("OPENAI_API_KEY"@, Json::Str(sk_key))])),
            ("config"@, Json::Str(config_text)),
            ("modelCatalog"@, cc_model_catalog(models)),
        ],
    )
}

/// Builds the `settings_config` of CC Switch's record of this provider.
pub fn cc_switch_settings_config(sk_key: &str, stored_config_text: &str, models: &Vec<String>) -> (res: JsonValue)
    ensures
        res@ == cc_settings_config(sk_key@, stored_config_text@, models@.map_values(|m: String| m@)),
{
    let mut auth: Vec<(String, JsonValue)> = Vec::new();
    push_field(&mut auth, "OPENAI_API_KEY", JsonValue::string(sk_key));
    assert(json_pairs(auth@) =~= seq![("OPENAI_API_KEY"@, Json::Str(sk_key@))]);
    let mut e: Vec<(String, JsonValue)> = Vec::new();
    push_field(&mut e, "auth", JsonValue::Object(auth));
    push_field(&mut e, "config", JsonValue::string(stored_config_text));
    push_field(&mut e, "modelCatalog", cc_switch_model_catalog_settings(models));
    assert(json_pairs(e@) =~= cc_settings_config(sk_key@, stored_config_text@, models@.map_values(|m: String| m@))->Object_0);
    JsonValue::Object(e)
}

/// CC Switch's settings with the current Codex provider set: an object keeps
/// its other fields; anything else (or a file that did not parse) is replaced.
pub open spec fn settings_with_provider(settings: Option<Json>, provider_id: Seq<char>) -> Json {
    match settings {
        Some(Json::Object(e)) => Json::Object(e.push(("currentProviderCodex"@, Json::Str(provider_id)))),
        _ => Json::Object(seq![("currentProviderCodex"@, Json::Str(provider_id))]),
    }
}

/// Sets CC Switch's current Codex provider in its settings.
pub fn settings_with_current_provider(settings: Option<JsonValue>, provider_id: &str) -> (res: JsonValue)
    ensures
        res@ == settings_with_provider(
            match settings {
                Some(v) => Some(v@),
                None => None,
            },
            provider_id@,
        ),
{
    let mut e: Vec<(String, JsonValue)> = match settings {
        Some(JsonValue::Object(e)) => e,
        _ => Vec::new(),
    };
    push_field(&mut e, "currentProviderCodex", JsonValue::string(provider_id));
    JsonValue::Object(e)
}

/// A key shown in the setup preview with its middle hidden.
pub fn mask_middle(s: &str) -> (res: String)
    requires
        s.spec_bytes().len() <= usize::MAX,
        crate::text::mask_slices_ok(s, 10, 7),
    ensures
        res@ == crate::text::masked(s.spec_bytes(), 10, 7),
{
    crate::text::mask_secret(s, 10, 7)
}

/// The version line of `codex --version`: the first line of its output,
/// trimmed, where the command succeeded and printed one.
pub open spec fn version_line(success: bool, stdout: Seq<char>) -> Option<Seq<char>> {
    if !success || stdout.len() == 0 || trim(until_newline(stdout)).len() == 0 {
        None
    } else {
        Some(trim(until_newline(stdout)))
    }
}

/// Reads the version from the output of `codex --version`.
pub fn version_from_output(success: bool, stdout: &str) -> (res: Option<String>)
    ensures
        ov(res) == version_line(success, stdout@),
{
    if !success {
        return None;
    }
    match first_line_trimmed(stdout) {
        Some(l) => {
            if l.as_str().is_empty() {
                None
            } else {
                Some(l)
            }
        },
        None => None,
    }
}

/// `tasklist` lists the Codex desktop process.
pub fn tasklist_shows_codex(stdout: &str) -> (res: bool)
    ensures
        res == contains_sub(ascii_lower(stdout@), "\"chatgpt.exe\""@),
{
    let l = ascii_lower_str(stdout);
    contains_str(l.as_str(), "\"chatgpt.exe\"")
}

/// The Codex environment as found.
#[derive(Debug)]
pub struct CodexEnv {
    pub installed: bool,
    pub desktop_installed: bool,
    pub cli_path: Option<String>,
    pub version: Option<String>,
    pub npm_global: bool,
    pub codex_home: String,
    pub config_exists: bool,
    pub auth_exists: bool,
    /// `cli_auth_credentials_store` of `config.toml` (`file`, `keyring` or `auto`).
    pub credentials_store: Option<String>,
    /// Credentials live in the system keyring, where writing `auth.json` may
    /// not take effect.
    pub keyring_warning: bool,
    /// `auth.json` holds an official ChatGPT login.
    pub has_chatgpt_login: bool,
    /// `config.toml` routes Codex to this site.
    pub provider_configured: bool,
    pub config_parse_error: Option<String>,
}

/// What was found on disk and on the machine, as plain values.
#[derive(Debug)]
pub struct CodexProbe {
    pub cli_path: Option<String>,
    pub version: Option<String>,
    pub npm_global: bool,
    pub desktop_installed: bool,
    pub codex_home: String,
    pub config_exists: bool,
    /// `config.toml`, where it exists: its table, or the read or parse error.
    pub config: Option<Result<TomlTable, String>>,
    pub auth_exists: bool,
    /// `auth.json`, where it exists and was read and parsed.
    pub auth: Option<JsonValue>,
}

/// The credential store named in the configuration.
pub open spec fn credentials_store_of(config: Option<Result<TomlTable, String>>) -> Option<Seq<char>> {
    match config {
        Some(Ok(t)) => as_str(t@.get("cli_auth_credentials_store"@)),
        _ => None,
    }
}

/// The configuration that counts: the one read, where `config.toml` exists.
pub open spec fn found_config(probe: CodexProbe) -> Option<Result<TomlTable, String>> {
    if probe.config_exists {
        probe.config
    } else {
        None
    }
}

/// The `auth.json` that counts: the one read, where the file exists.
pub open spec fn found_auth(probe: CodexProbe) -> Option<JsonValue> {
    if probe.auth_exists {
        probe.auth
    } else {
        None
    }
}

/// Assembles the environment report from what was found. Nothing is read
/// from a file that does not exist: a login needs `auth.json`, and a
/// configured provider, a credential store or a parse error needs
/// `config.toml`.
pub fn detect_codex_env(probe: CodexProbe) -> (res: CodexEnv)
    ensures
        res.installed == (probe.cli_path is Some || probe.desktop_installed),
        res.desktop_installed == probe.desktop_installed,
        res.cli_path == probe.cli_path,
        res.version == probe.version,
        res.npm_global == probe.npm_global,
        res.codex_home == probe.codex_home,
        res.config_exists == probe.config_exists,
        res.auth_exists == probe.auth_exists,
        ov(res.credentials_store) == credentials_store_of(found_config(probe)),
        res.keyring_warning == (credentials_store_of(found_config(probe)) == Some("keyring"@)),
        res.provider_configured == (match found_config(probe) {
            Some(Ok(t)) => points_to_site(t@),
            _ => false,
        }),
        ov(res.config_parse_error) == (match found_config(probe) {
            Some(Err(e)) => Some(e@),
            _ => None,
        }),
        res.has_chatgpt_login == (match found_auth(probe) {
            Some(a) => has_chatgpt_login(a@),
            None => false,
        }),
        res.has_chatgpt_login ==> res.auth_exists,
        res.provider_configured || res.credentials_store is Some || res.config_parse_error is Some
            ==> res.config_exists,
{
    let mut credentials_store: Option<String> = None;
    let mut provider_configured = false;
    let mut config_parse_error: Option<String> = None;
    if probe.config_exists {
        match &probe.config {
            Some(Ok(t)) => {
                credentials_store = match t.get("cli_auth_credentials_store") {
                    Some(TomlValue::Str(s)) => Some(s.clone()),
                    _ => None,
                };
                provider_configured = table_points_to_smartagent(t);
            },
            Some(Err(e)) => {
                config_parse_error = Some(e.clone());
            },
            None => {},
        }
    }
    let has_chatgpt_login = if probe.auth_exists {
        match &probe.auth {
            Some(a) => auth_has_chatgpt_login(a),
            None => false,
        }
    } else {
        false
    };
    let keyring_warning = match &credentials_store {
        Some(s) => str_eq(s.as_str(), "keyring"),
        None => false,
    };
    CodexEnv {
        installed: probe.cli_path.is_some() || probe.desktop_installed,
        desktop_installed: probe.desktop_installed,
        cli_path: probe.cli_path,
        version: probe.version,
        npm_global: probe.npm_global,
        codex_home: probe.codex_home,
        config_exists: probe.config_exists,
        auth_exists: probe.auth_exists,
        credentials_store,
        keyring_warning,
        has_chatgpt_login,
        provider_configured,
        config_parse_error,
    }
}

/// The setup preview: what will be written, with the key already masked and
/// the site's address hidden (no address is ever shown in the interface).
#[derive(Debug)]
pub struct ApplyPreview {
    pub config_preview: String,
    pub auth_preview: String,
    pub has_chatgpt_login: bool,
    pub keyring_warning: bool,
    pub codex_home: String,
}

/// The text that replaces the site's address in the preview.
pub open spec fn hidden_site() -> Seq<char> {
    "<内置站点地址>"@
}

/// The preview's note on `auth.json`.
pub open spec fn auth_preview_text() -> Seq<char> {
    "保留 Codex 官方登录态；第三方令牌写入 config.toml（Desktop 模型列表门控需要官方登录）"@
}

/// Builds the preview from the configuration text to be written (with the
/// key masked) and the environment.
pub fn apply_preview(config_text: &str, env: &CodexEnv) -> (res: ApplyPreview)
    ensures
        res.config_preview@ == replace_all(config_text@, SITE_BASE_URL@, hidden_site()),
        res.auth_preview@ == auth_preview_text(),
        res.has_chatgpt_login == env.has_chatgpt_login,
        res.keyring_warning == env.keyring_warning,
        res.codex_home@ == env.codex_home@,
{
    proof {
        reveal_strlit("https://api.smart-agent.eu.cc");
    }
    ApplyPreview {
        config_preview: replace_str(config_text, SITE_BASE_URL, "<内置站点地址>"),
        auth_preview: "保留 Codex 官方登录态；第三方令牌写入 config.toml（Desktop 模型列表门控需要官方登录）".to_owned(),
        has_chatgpt_login: env.has_chatgpt_login,
        keyring_warning: env.keyring_warning,
        codex_home: env.codex_home.clone(),
    }
}

/// The preview never shows the site's address: every occurrence is replaced,
/// and the replacement cannot form a new one.
pub proof fn law_preview_hides_site(config_text: Seq<char>)
    ensures
        !contains_sub(replace_all(config_text, SITE_BASE_URL@, hidden_site()), SITE_BASE_URL@),
{
    reveal_strlit("https://api.smart-agent.eu.cc");
    reveal_strlit("<内置站点地址>");
    let from = SITE_BASE_URL@;
    let to = hidden_site();
    assert forall|i: int| 0 <= i < from.len() implies !to.contains(#[trigger] from[i]) by {
        if to.contains(from[i]) {
            let j = choose|j: int| 0 <= j < to.len() && to[j] == from[i];
            assert(to[j] == from[i]);
        }
    }
    lemma_replace_all_removes(config_text, from, to);
}

/// The outcome of the one-click setup.
#[derive(Debug)]
pub struct ApplyResult {
    pub backup_dir: Option<String>,
    /// Kept for older front ends: the official login is never overwritten.
    pub chatgpt_login_overwritten: bool,
    /// The official login was kept (and backed up).
    pub official_login_preserved: bool,
    /// Codex Desktop's model picker can show the catalog (it needs the
    /// official login).
    pub desktop_model_picker_ready: bool,
    pub cc_switch_synced: bool,
    pub codex_restarted: bool,
    pub keyring_warning: bool,
}

/// The setup's outcome: the official login is never overwritten, and the
/// model picker is ready exactly where an official login is present.
pub fn apply_result(backup_dir: Option<String>, has_chatgpt_login: bool, cc_switch_synced: bool, keyring_warning: bool) -> (res: ApplyResult)
    ensures
        res.backup_dir == backup_dir,
        !res.chatgpt_login_overwritten,
        res.official_login_preserved == has_chatgpt_login,
        res.desktop_model_picker_ready == has_chatgpt_login,
        res.cc_switch_synced == cc_switch_synced,
        !res.codex_restarted,
        res.keyring_warning == keyring_warning,
{
    ApplyResult {
        backup_dir,
        chatgpt_login_overwritten: false,
        official_login_preserved: has_chatgpt_login,
        desktop_model_picker_ready: has_chatgpt_login,
        cc_switch_synced,
        codex_restarted: false,
        keyring_warning,
    }
}

/// What the setup writes, all decided before any file is touched.
#[derive(Debug)]
pub struct ApplyPlan {
    /// The configuration for `config.toml`, with the live key.
    pub config: TomlTable,
    /// The same configuration without the live key, as handed to CC Switch.
    pub stored_config: TomlTable,
    /// The model catalog that the configuration points to.
    pub catalog: JsonValue,
}

/// Plans the setup: the site's provider merged into the existing
/// configuration (or into an empty one where that did not parse or cannot be
/// merged), its copy without the key, and the catalog.
pub fn plan_apply(existing: Option<TomlTable>, sk_key: &str, model: &str, models: &Vec<String>) -> (res: ApplyPlan)
    ensures
        res.config@ == setup_or_fresh(
            match existing {
                Some(t) => Some(t@),
                None => None,
            },
            model@,
            Some(sk_key@),
        ),
        res.stored_config@ == without_token(res.config@),
        res.catalog@ == model_catalog(models@.map_values(|m: String| m@), model@),
{
    let config = build_config_or_fresh(existing, model, Some(sk_key));
    let stored_config = config_without_smartagent_live_token(config.copy());
    let catalog = build_model_catalog(models, model);
    ApplyPlan { config, stored_config, catalog }
}

/// The newest backup of `auth.json` that holds an official login: `auths`
/// lists the backups newest first (`None` where the file is missing or does
/// not parse), and the result is the position of the first one with a login.
pub fn first_official_login(auths: &Vec<Option<JsonValue>>) -> (res: Option<usize>)
    ensures
        match res {
            Some(i) => i < auths@.len() && (auths@[i as int] matches Some(a) && has_chatgpt_login(a@))
                && forall|j: int| 0 <= j < i ==> !(#[trigger] auths@[j] matches Some(a) && has_chatgpt_login(a@)),
            None => forall|j: int| 0 <= j < auths@.len() ==> !(#[trigger] auths@[j] matches Some(a) && has_chatgpt_login(a@)),
        },
{
    let mut i: usize = 0;
    while i < auths.len()
        invariant
            i <= auths@.len(),
            forall|j: int| 0 <= j < i ==> !(#[trigger] auths@[j] matches Some(a) && has_chatgpt_login(a@)),
        decreases auths@.len() - i,
    {
        if live_login(&auths[i]) {
            return Some(i);
        }
        i += 1;
    }
    None
}

/// The live `auth.json` holds an official login (it parsed and has one).
pub fn live_login(auth: &Option<JsonValue>) -> (res: bool)
    ensures
        res == (match auth {
            Some(a) => has_chatgpt_login(a@),
            None => false,
        }),
{
    match auth {
        Some(a) => auth_has_chatgpt_login(a),
        None => false,
    }
}

/// What the setup writes: the API key, the active model and the catalog's models.
#[derive(Debug)]
pub struct ApplyRequest {
    pub sk_key: String,
    pub model: String,
    pub models: Vec<String>,
}

/// The model Codex starts with: the saved default, else the first saved
/// selection, else `gpt-5`.
pub open spec fn saved_model(store: LocalStore) -> Seq<char> {
    match ov(store.default_model) {
        Some(m) => m,
        None => if store.selected_models@.len() > 0 {
            store.selected_models@[0]@
        } else {
            "gpt-5"@
        },
    }
}

fn saved_model_of(store: &LocalStore) -> (res: String)
    ensures
        res@ == saved_model(*store),
{
    match &store.default_model {
        Some(m) => m.clone(),
        None => if store.selected_models.len() > 0 {
            store.selected_models[0].clone()
        } else {
            "gpt-5".to_owned()
        },
    }
}

/// The request for one model.
pub open spec fn request_for(r: ApplyRequest, sk: Seq<char>, model: Seq<char>) -> bool {
    r.sk_key@ == sk && r.model@ == model && r.models@.map_values(|m: String| m@) == seq![model]
}

fn request_of(sk: String, model: String) -> (res: ApplyRequest)
    ensures
        request_for(res, sk@, model@),
{
    let mut models: Vec<String> = Vec::new();
    models.push(model.clone());
    assert(models@.map_values(|m: String| m@) =~= seq![model@]);
    ApplyRequest { sk_key: sk, model, models }
}

/// What the headless setup applies from the saved state: the saved key
/// (required) and the saved model alone.
pub fn apply_codex_config_from_local_store_blocking(store: &LocalStore) -> (res: Result<ApplyRequest, AppError>)
    ensures
        match ov(store.sk_key) {
            Some(sk) => res matches Ok(r) && request_for(r, sk, saved_model(*store)),
            None => res matches Err(e) && e@ == message(
                "本机尚未保存 API 令牌，请先在 Smart Agent 登录"@,
            ),
        },
{
    let sk = match &store.sk_key {
        Some(k) => k.clone(),
        None => {
            return Err(AppError::msg("本机尚未保存 API 令牌，请先在 Smart Agent 登录"));
        },
    };
    Ok(request_of(sk, saved_model_of(store)))
}

/// The user still wants Codex connected and a non-empty key is saved.
pub open spec fn reconnect_wanted(store: LocalStore) -> bool {
    store.codex_desired && (ov(store.sk_key) matches Some(sk) && sk.len() > 0)
}

/// A logged-out state never reconnects Codex by itself.
pub proof fn law_logged_out_never_reconnects(store: LocalStore)
    requires
        logged_out_state(store),
    ensures
        !reconnect_wanted(store),
{
}

/// The key that the setup preview shows (masked): the issued key must exist.
pub fn plan_key(store: &LocalStore) -> (res: Result<String, AppError>)
    ensures
        match store.sk_key {
            Some(k) => res matches Ok(r) && r@ == k@,
            None => res matches Err(e) && e@ == message("尚未获取 API 令牌，请先完成上一步「自动开卡」"@),
        },
{
    match &store.sk_key {
        Some(k) => Ok(k.clone()),
        None => Err(AppError::msg("尚未获取 API 令牌，请先完成上一步「自动开卡」")),
    }
}

/// The key that the one-click setup writes: the issued key must exist.
pub fn apply_key(store: &LocalStore) -> (res: Result<String, AppError>)
    ensures
        match store.sk_key {
            Some(k) => res matches Ok(r) && r@ == k@,
            None => res matches Err(e) && e@ == message("尚未获取 API 令牌，请先完成「自动开卡」"@),
        },
{
    match &store.sk_key {
        Some(k) => Ok(k.clone()),
        None => Err(AppError::msg("尚未获取 API 令牌，请先完成「自动开卡」")),
    }
}

/// What keeping Codex connected would write back, or nothing: only where the
/// user still wants Codex connected and a non-empty key is saved. After a
/// disconnect this is always nothing, so nothing reconnects by itself.
pub fn ensure_request(store: &LocalStore) -> (res: Option<ApplyRequest>)
    ensures
        res is Some <==> reconnect_wanted(*store),
        res matches Some(r) ==> request_for(r, ov(store.sk_key)->0, saved_model(*store)),
{
    if !store.codex_desired {
        return None;
    }
    let sk = match &store.sk_key {
        Some(k) => {
            if k.as_str().is_empty() {
                return None;
            }
            k.clone()
        },
        None => {
            return None;
        },
    };
    Some(request_of(sk, saved_model_of(store)))
}

/// The site's configuration is still on disk: `config.toml` routes to this
/// site and the catalog file is there.
pub fn smartagent_config_present(config: &Option<TomlTable>, catalog_is_file: bool) -> (res: bool)
    ensures
        res == (match config {
            Some(t) => points_to_site(t@),
            None => false,
        } && catalog_is_file),
{
    let config_ok = match config {
        Some(t) => table_points_to_smartagent(t),
        None => false,
    };
    config_ok && catalog_is_file
}

/// The outcome of restoring the official login.
#[derive(Debug)]
pub struct OfficialLoginRestoreResult {
    pub official_login_restored: bool,
    pub login_required: bool,
}

/// The restore's outcome: restored where an official login was found (live or
/// in a backup), else the user must log in again.
pub fn restore_result(found: bool) -> (res: OfficialLoginRestoreResult)
    ensures
        res.official_login_restored == found,
        res.login_required == !found,
{
    OfficialLoginRestoreResult { official_login_restored: found, login_required: !found }
}

/// How many setup backups are kept.
pub const BACKUP_KEEP: usize = 10;

/// An entry of the backup directory.
#[derive(Debug)]
pub struct BackupEntry {
    pub name: String,
    pub is_dir: bool,
}

/// The time stamp of a backup: a directory whose name is a number.
pub open spec fn backup_stamp(e: BackupEntry) -> Option<i64> {
    if e.is_dir {
        parse_i64(e.name@)
    } else {
        None
    }
}

/// Backup `a` (entry `i`) comes before backup `b` (entry `j`): it is newer, or
/// as new and listed earlier (the sort is stable).
pub open spec fn newer_first(a: i64, i: int, b: i64, j: int) -> bool {
    a > b || (a == b && i < j)
}

/// `order` lists the backups among `entries`, newest first, each once.
pub open spec fn backup_order(entries: Seq<BackupEntry>, order: Seq<usize>) -> bool {
    &&& forall|p: int| 0 <= p < order.len() ==> (#[trigger] order[p]) < entries.len() && backup_stamp(entries[order[p] as int]) is Some
    &&& forall|i: int| 0 <= i < entries.len() && (#[trigger] backup_stamp(entries[i])) is Some ==> exists|p: int| 0 <= p < order.len() && order[p] == i
    &&& forall|p: int, q: int| 0 <= p < q < order.len() ==> newer_first(
        backup_stamp(entries[order[p] as int])->0,
        order[p] as int,
        backup_stamp(entries[order[q] as int])->0,
        order[q] as int,
    )
}

/// Backup `i` comes before backup `j` in the listing.
pub open spec fn listed_before(entries: Seq<BackupEntry>, i: int, j: int) -> bool {
    newer_first(backup_stamp(entries[i])->0, i, backup_stamp(entries[j])->0, j)
}

/// `order` lists exactly the indices in `s`, each before the later ones.
pub open spec fn listing_of(entries: Seq<BackupEntry>, order: Seq<usize>, s: Set<int>) -> bool {
    &&& forall|p: int| 0 <= p < order.len() ==> s.contains(#[trigger] order[p] as int)
    &&& forall|i: int| #[trigger] s.contains(i) ==> exists|p: int| 0 <= p < order.len() && order[p] == i
    &&& forall|p: int, q: int| 0 <= p < q < order.len() ==> listed_before(entries, #[trigger] order[p] as int, #[trigger] order[q] as int)
}

proof fn lemma_listing_unique(entries: Seq<BackupEntry>, a: Seq<usize>, b: Seq<usize>, s: Set<int>)
    requires
        listing_of(entries, a, s),
        listing_of(entries, b, s),
    ensures
        a == b,
    decreases a.len(),
{
    if a.len() == 0 {
        if b.len() > 0 {
            assert(s.contains(b[0] as int));
        }
        assert(a =~= b);
    } else {
        assert(s.contains(a[0] as int));
        let pb = choose|p: int| 0 <= p < b.len() && b[p] == a[0];
        assert(s.contains(b[0] as int));
        let pa = choose|p: int| 0 <= p < a.len() && a[p] == b[0];
        if a[0] != b[0] {
            assert(pa > 0 && pb > 0);
            assert(listed_before(entries, a[0] as int, a[pa] as int));
            assert(listed_before(entries, b[0] as int, b[pb] as int));
            assert(false);
        }
        let x = a[0] as int;
        let s2 = s.remove(x);
        let a2 = a.drop_first();
        let b2 = b.drop_first();
        assert forall|p: int| 0 <= p < a2.len() implies s2.contains(#[trigger] a2[p] as int) by {
            assert(a2[p] == a[p + 1]);
            assert(listed_before(entries, a[0] as int, a[p + 1] as int));
        }
        assert forall|p: int| 0 <= p < b2.len() implies s2.contains(#[trigger] b2[p] as int) by {
            assert(b2[p] == b[p + 1]);
            assert(listed_before(entries, b[0] as int, b[p + 1] as int));
        }
        assert forall|i: int| #[trigger] s2.contains(i) implies exists|p: int| 0 <= p < a2.len() && a2[p] == i by {
            let p = choose|p: int| 0 <= p < a.len() && a[p] == i;
            assert(p > 0);
            assert(a2[p - 1] == i);
        }
        assert forall|i: int| #[trigger] s2.contains(i) implies exists|p: int| 0 <= p < b2.len() && b2[p] == i by {
            let p = choose|p: int| 0 <= p < b.len() && b[p] == i;
            assert(p > 0);
            assert(b2[p - 1] == i);
        }
        assert forall|p: int, q: int| 0 <= p < q < a2.len() implies listed_before(entries, #[trigger] a2[p] as int, #[trigger] a2[q] as int) by {
            assert(a2[p] == a[p + 1] && a2[q] == a[q + 1]);
        }
        assert forall|p: int, q: int| 0 <= p < q < b2.len() implies listed_before(entries, #[trigger] b2[p] as int, #[trigger] b2[q] as int) by {
            assert(b2[p] == b[p + 1] && b2[q] == b[q + 1]);
        }
        lemma_listing_unique(entries, a2, b2, s2);
        assert(a =~= seq![a[0]] + a2);
        assert(b =~= seq![b[0]] + b2);
    }
}

/// There is exactly one listing of the backups newest first: the removal that
/// rotation makes is determined by the directory's entries.
pub proof fn law_backup_order_unique(entries: Seq<BackupEntry>, a: Seq<usize>, b: Seq<usize>)
    requires
        backup_order(entries, a),
        backup_order(entries, b),
    ensures
        a == b,
{
    let s = Set::new(|i: int| 0 <= i < entries.len() && backup_stamp(entries[i]) is Some);
    assert forall|p: int| 0 <= p < a.len() implies s.contains(#[trigger] a[p] as int) by {
        assert(a[p] < entries.len());
    }
    assert forall|p: int| 0 <= p < b.len() implies s.contains(#[trigger] b[p] as int) by {
        assert(b[p] < entries.len());
    }
    assert forall|p: int, q: int| 0 <= p < q < a.len() implies listed_before(entries, #[trigger] a[p] as int, #[trigger] a[q] as int) by {}
    assert forall|p: int, q: int| 0 <= p < q < b.len() implies listed_before(entries, #[trigger] b[p] as int, #[trigger] b[q] as int) by {}
    lemma_listing_unique(entries, a, b, s);
}

/// Rotation keeps the newest backups: every kept one (the first ones listed)
/// is newer than, or as new as and listed before, every removed one.
pub proof fn law_rotation_keeps_newest(entries: Seq<BackupEntry>, order: Seq<usize>)
    requires
        backup_order(entries, order),
    ensures
        forall|p: int, q: int|
            0 <= p < BACKUP_KEEP && BACKUP_KEEP <= q < order.len() ==> listed_before(
                entries,
                #[trigger] order[p] as int,
                #[trigger] order[q] as int,
            ),
{
}

/// The backups among `entries`, newest first (a stable sort by time stamp).
pub fn backups_newest_first(entries: &Vec<BackupEntry>) -> (res: Vec<usize>)
    ensures
        backup_order(entries@, res@),
{
    let mut sorted: Vec<(i64, usize)> = Vec::new();
    let mut i: usize = 0;
    while i < entries.len()
        invariant
            i <= entries@.len(),
            forall|p: int| 0 <= p < sorted@.len() ==> (#[trigger] sorted@[p]).1 < i && backup_stamp(entries@[sorted@[p].1 as int]) == Some(sorted@[p].0),
            forall|j: int| 0 <= j < i && (#[trigger] backup_stamp(entries@[j])) is Some ==> exists|p: int| 0 <= p < sorted@.len() && sorted@[p].1 == j,
            forall|p: int, q: int| 0 <= p < q < sorted@.len() ==> newer_first(sorted@[p].0, sorted@[p].1 as int, sorted@[q].0, sorted@[q].1 as int),
        decreases entries@.len() - i,
    {
        let e = &entries[i];
        let stamp = if e.is_dir {
            parse_i64_str(e.name.as_str())
        } else {
            None
        };
        match stamp {
            Some(t) => {
                let mut pos: usize = 0;
                while pos < sorted.len() && sorted[pos].0 >= t
                    invariant
                        pos <= sorted@.len(),
                        forall|p: int| 0 <= p < pos ==> (#[trigger] sorted@[p]).0 >= t,
                    decreases sorted@.len() - pos,
                {
                    pos += 1;
                }
                let ghost before = sorted@;
                sorted.insert(pos, (t, i));
                proof {
                    assert(sorted@ == before.insert(pos as int, (t, i)));
                    assert forall|p: int, q: int| 0 <= p < q < sorted@.len() implies newer_first(sorted@[p].0, sorted@[p].1 as int, sorted@[q].0, sorted@[q].1 as int) by {
                        if q < pos {
                            assert(sorted@[p] == before[p] && sorted@[q] == before[q]);
                        } else if q == pos {
                            assert(sorted@[p] == before[p]);
                        } else if p == pos {
                            assert(sorted@[q] == before[q - 1]);
                            assert(before[pos as int].0 < t);
                            if q - 1 > pos {
                                assert(newer_first(before[pos as int].0, before[pos as int].1 as int, before[q - 1].0, before[q - 1].1 as int));
                            }
                        } else if p < pos {
                            assert(sorted@[p] == before[p] && sorted@[q] == before[q - 1]);
                        } else {
                            assert(sorted@[p] == before[p - 1] && sorted@[q] == before[q - 1]);
                        }
                    }
                    assert forall|j: int| 0 <= j < i + 1 && (#[trigger] backup_stamp(entries@[j])) is Some implies exists|p: int| 0 <= p < sorted@.len() && sorted@[p].1 == j by {
                        if j == i {
                            assert(sorted@[pos as int].1 == j);
                        } else {
                            let p0 = choose|p: int| 0 <= p < before.len() && before[p].1 == j;
                            if p0 < pos {
                                assert(sorted@[p0].1 == j);
                            } else {
                                assert(sorted@[p0 + 1].1 == j);
                            }
                        }
                    }
                }
            },
            None => {},
        }
        i += 1;
    }
    let mut order: Vec<usize> = Vec::new();
    let mut k: usize = 0;
    while k < sorted.len()
        invariant
            k <= sorted@.len(),
            order@.len() == k,
            forall|p: int| 0 <= p < k ==> #[trigger] order@[p] == sorted@[p].1,
        decreases sorted@.len() - k,
    {
        order.push(sorted[k].1);
        k += 1;
    }
    proof {
        assert forall|i: int| 0 <= i < entries@.len() && (#[trigger] backup_stamp(entries@[i])) is Some implies exists|p: int| 0 <= p < order@.len() && order@[p] == i by {
            let p0 = choose|p: int| 0 <= p < sorted@.len() && sorted@[p].1 == i;
            assert(order@[p0] == i);
        }
        assert forall|p: int, q: int| 0 <= p < q < order@.len() implies newer_first(
            backup_stamp(entries@[order@[p] as int])->0,
            order@[p] as int,
            backup_stamp(entries@[order@[q] as int])->0,
            order@[q] as int,
        ) by {
            assert(order@[p] == sorted@[p].1 && order@[q] == sorted@[q].1);
        }
    }
    order
}

/// The backups that rotation removes: all but the newest ones kept.
pub fn backups_to_remove(entries: &Vec<BackupEntry>) -> (res: Vec<usize>)
    ensures
        exists|order: Seq<usize>| backup_order(entries@, order) && res@ == (if order.len() > BACKUP_KEEP {
            order.skip(BACKUP_KEEP as int)
        } else {
            Seq::<usize>::empty()
        }),
{
    let order = backups_newest_first(entries);
    let mut out: Vec<usize> = Vec::new();
    let mut k: usize = BACKUP_KEEP;
    while k < order.len()
        invariant
            BACKUP_KEEP <= k,
            k <= order@.len() || order@.len() <= BACKUP_KEEP,
            order@.len() > BACKUP_KEEP ==> out@ == order@.subrange(BACKUP_KEEP as int, k as int),
            order@.len() <= BACKUP_KEEP ==> out@.len() == 0,
        decreases order@.len() - k,
    {
        out.push(order[k]);
        k += 1;
        assert(out@ =~= order@.subrange(BACKUP_KEEP as int, k as int));
    }
    proof {
        if order@.len() > BACKUP_KEEP {
            assert(out@ =~= order@.skip(BACKUP_KEEP as int));
        } else {
            assert(out@ =~= Seq::<usize>::empty());
        }
    }
    out
}

/// What refreshing the model selection writes: the configuration and the
/// catalog, or nothing.
pub open spec fn sync_plan_ok(res: Option<(TomlTable, JsonValue)>, t: TomlTable, default_model: Seq<char>, selected: Seq<Seq<char>>) -> bool {
    match merged_config(t@, default_model, None) {
        Some(m) => res matches Some(p) && p.0@ == m && p.1@ == model_catalog(selected, default_model),
        None => false,
    }
}

/// Refreshes the model in Codex's configuration and catalog, without touching
/// credentials or making a backup — only where the user wants Codex connected,
/// the configuration exists and it routes to this site.
pub fn sync_model_selection(desired: bool, config: Option<TomlTable>, default_model: &str, selected_models: &Vec<String>) -> (res: Result<Option<(TomlTable, JsonValue)>, AppError>)
    ensures
        match config {
            Some(t) => if desired && points_to_site(t@) {
                match merged_config(t@, default_model@, None) {
                    Some(_) => res matches Ok(p) && sync_plan_ok(p, t, default_model@, selected_models@.map_values(|m: String| m@)),
                    None => res matches Err(e) && e@ == message(providers_type_error()),
                }
            } else {
                res matches Ok(None)
            },
            None => res matches Ok(None),
        },
{
    if !desired {
        return Ok(None);
    }
    let t = match config {
        Some(t) => t,
        None => {
            return Ok(None);
        },
    };
    if !table_points_to_smartagent(&t) {
        return Ok(None);
    }
    let ghost t0 = t;
    let catalog = build_model_catalog(selected_models, default_model);
    match build_config_table(t, default_model, None) {
        Ok(cfg) => {
            proof {
                assert(crate::codex_config::opt_view(None) == None::<Seq<char>>);
            }
            Ok(Some((cfg, catalog)))
        },
        Err(e) => Err(e),
    }
}

/// The watch that keeps the configuration in place while Codex Desktop starts
/// and may wash it away.
#[derive(Debug)]
pub struct HoldState {
    pub process_seen: bool,
    pub stable_ticks: u32,
    pub reassert_count: u32,
}

/// What to do after one tick of the watch.
#[derive(Debug)]
pub enum HoldStep {
    /// Keep watching.
    Wait,
    /// The configuration stayed for long enough: done.
    Stable,
    /// The configuration was washed away: write it back.
    Reassert,
}

/// One tick (half a second) of the watch: nothing counts until the desktop
/// process was seen; then 40 ticks in a row with the configuration present
/// end the watch, and a missing configuration is written back.
pub fn hold_step(state: &mut HoldState, running: bool, present: bool) -> (res: HoldStep)
    requires
        old(state).stable_ticks < u32::MAX,
        old(state).reassert_count < u32::MAX,
    ensures
        final(state).process_seen == (old(state).process_seen || running),
        !final(state).process_seen ==> res is Wait && final(state).stable_ticks == old(state).stable_ticks
            && final(state).reassert_count == old(state).reassert_count,
        final(state).process_seen && present ==> final(state).stable_ticks == old(state).stable_ticks + 1
            && final(state).reassert_count == old(state).reassert_count && (if final(state).stable_ticks >= 40 {
            res is Stable
        } else {
            res is Wait
        }),
        final(state).process_seen && !present ==> final(state).stable_ticks == 0 && final(state).reassert_count
            == old(state).reassert_count + 1 && res is Reassert,
{
    state.process_seen = state.process_seen || running;
    if !state.process_seen {
        return HoldStep::Wait;
    }
    if present {
        state.stable_ticks = state.stable_ticks + 1;
        if state.stable_ticks >= 40 {
            return HoldStep::Stable;
        }
        return HoldStep::Wait;
    }
    state.stable_ticks = 0;
    state.reassert_count = state.reassert_count + 1;
    HoldStep::Reassert
}

/// The outcome once the watch ran out of time.
pub fn hold_outcome(state: &HoldState, present: bool) -> (res: Result<(), AppError>)
    ensures
        !state.process_seen ==> (res matches Err(e) && e@ == message(
            "Codex 已配置，但自动重新打开失败"@,
        )),
        state.process_seen && present ==> res is Ok,
        state.process_seen && !present ==> (res matches Err(e) && e@ == message(
            "Codex 桌面端启动后持续覆盖 Smart Agent 配置（已回写 "@ + crate::text::dec(
                state.reassert_count as nat,
            ) + " 次仍被清洗）。请完全退出 Codex 后再次点击接入。"@,
        )),
{
    if !state.process_seen {
        return Err(AppError::msg("Codex 已配置，但自动重新打开失败"));
    }
    if present {
        return Ok(());
    }
    let n = crate::text::u64_text(state.reassert_count as u64);
    Err(
        AppError::Message(
            crate::text::concat3(
                "Codex 桌面端启动后持续覆盖 Smart Agent 配置（已回写 ",
                n.as_str(),
                " 次仍被清洗）。请完全退出 Codex 后再次点击接入。",
            ),
        ),
    )
}

/// The outcome of installing the Codex desktop app.
#[derive(Debug)]
pub struct CodexInstallResult {
    pub ok: bool,
    pub message: String,
}

/// The app is already installed.
pub fn install_already_done() -> (res: CodexInstallResult)
    ensures
        res.ok && res.message@ == "Codex 客户端已安装"@,
{
    CodexInstallResult { ok: true, message: "Codex 客户端已安装".to_owned() }
}

/// The outcome of `winget install`: done where it succeeded or the app is
/// now installed; else an error with the first non-blank of its error and
/// normal output (trimmed), or a generic note.
pub fn winget_outcome(succeeded: bool, installed_after: bool, stderr: &str, stdout: &str) -> (res: Result<CodexInstallResult, AppError>)
    ensures
        (succeeded || installed_after) ==> (res matches Ok(r) && r.ok && r.message@ == "Codex 客户端安装完成"@),
        !(succeeded || installed_after) ==> (res matches Err(e) && e@ == message(
            "自动安装失败，请使用「官方安装」打开微软商店。"@ + (if trim(stderr@).len() > 0 {
                trim(stderr@)
            } else if trim(stdout@).len() > 0 {
                trim(stdout@)
            } else {
                "winget 安装未完成"@
            }),
        )),
{
    if succeeded || installed_after {
        return Ok(CodexInstallResult { ok: true, message: "Codex 客户端安装完成".to_owned() });
    }
    let e = trim_str(stderr);
    let o = trim_str(stdout);
    let detail = if !e.as_str().is_empty() {
        e
    } else if !o.as_str().is_empty() {
        o
    } else {
        "winget 安装未完成".to_owned()
    };
    Err(AppError::Message(crate::text::concat2("自动安装失败，请使用「官方安装」打开微软商店。", detail.as_str())))
}

/// `winget` could not be started.
pub fn winget_missing(error_text: &str) -> (res: AppError)
    ensures
        res@ == message(
            "未找到 Windows 官方包管理器 winget，请使用「官方安装」打开微软商店："@ + error_text@,
        ),
{
    AppError::Message(crate::text::concat2("未找到 Windows 官方包管理器 winget，请使用「官方安装」打开微软商店：", error_text))
}

/// Automatic installation is not offered on this system.
pub fn install_unsupported() -> (res: AppError)
    ensures
        res@ == message("当前系统暂不支持自动安装 Codex 客户端"@),
{
    AppError::msg("当前系统暂不支持自动安装 Codex 客户端")
}

} // verus!
