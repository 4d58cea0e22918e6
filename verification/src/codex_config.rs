//! What the one-click setup writes into Codex's `config.toml`, and what
//! disconnecting takes out again.
//!
//! The provider id is always `custom`: Codex Desktop lists third-party models
//! only for that id. An earlier release used `smartagent`, which is migrated and
//! cleaned up. Reserved provider ids are never taken.

use vstd::prelude::*;
use crate::error::{message, AppError};
use crate::site::{spec_v1_base_url, v1_base_url};
use crate::text::{chars_of, file_name, path_file_name, str_eq, vec_eq};
use crate::toml_doc::{as_str, as_table, lemma_table_view, Toml, TomlTable, TomlValue};

verus! {

/// The provider id under which the site is configured.
pub const PROVIDER_ID: &'static str = "custom";

/// The provider id that earlier releases used.
pub const LEGACY_PROVIDER_ID: &'static str = "smartagent";

/// The model catalog file, relative to the Codex home.
pub const MODEL_CATALOG_FILE: &'static str = "smart-agent-models.json";

pub open spec fn key_model() -> Seq<char> {
    "model"@
}

pub open spec fn key_model_provider() -> Seq<char> {
    "model_provider"@
}

pub open spec fn key_catalog() -> Seq<char> {
    "model_catalog_json"@
}

pub open spec fn key_service_tier() -> Seq<char> {
    "service_tier"@
}

pub open spec fn key_providers() -> Seq<char> {
    "model_providers"@
}

pub open spec fn key_bearer() -> Seq<char> {
    "experimental_bearer_token"@
}

/// `base_url` of provider `id`, as `model_providers.<id>.base_url` reads it.
pub open spec fn provider_url(t: Map<Seq<char>, Toml>, id: Seq<char>) -> Option<Seq<char>> {
    match as_table(t.get(key_providers())) {
        Some(p) => match as_table(p.get(id)) {
            Some(q) => as_str(q.get("base_url"@)),
            None => None,
        },
        None => None,
    }
}

/// Provider `id` is pointed at this site.
pub open spec fn url_matches(t: Map<Seq<char>, Toml>, id: Seq<char>) -> bool {
    provider_url(t, id) == Some(spec_v1_base_url())
}

/// The active provider id, or the empty string.
pub open spec fn active_provider(t: Map<Seq<char>, Toml>) -> Seq<char> {
    match as_str(t.get(key_model_provider())) {
        Some(s) => s,
        None => Seq::empty(),
    }
}

/// The configuration routes Codex to this site: the active provider is ours
/// (current or legacy id) and its `base_url` is the site's `/v1` root.
pub open spec fn points_to_site(t: Map<Seq<char>, Toml>) -> bool {
    let a = active_provider(t);
    (a == PROVIDER_ID@ || a == LEGACY_PROVIDER_ID@) && url_matches(t, a)
}

/// The provider table that the setup starts from: the existing `custom` one,
/// else the legacy one, else an empty table.
pub open spec fn base_provider(t: Map<Seq<char>, Toml>) -> Map<Seq<char>, Toml> {
    match as_table(t.get(key_providers())) {
        Some(p) => match as_table(p.get(PROVIDER_ID@)) {
            Some(q) => q,
            None => match as_table(p.get(LEGACY_PROVIDER_ID@)) {
                Some(q) => q,
                None => Map::empty(),
            },
        },
        None => Map::empty(),
    }
}

/// The site's provider table, built on `base`.
pub open spec fn provider_entry(base: Map<Seq<char>, Toml>, token: Option<Seq<char>>) -> Map<
    Seq<char>,
    Toml,
> {
    let q = base.insert("name"@, Toml::Str("Smart Agent"@)).insert(
        "base_url"@,
        Toml::Str(spec_v1_base_url()),
    ).insert("wire_api"@, Toml::Str("responses"@));
    let q = match token {
        Some(tk) => q.insert(key_bearer(), Toml::Str(tk)),
        None => q,
    };
    q.remove("requires_openai_auth"@).remove("env_key"@)
}

/// The top-level keys that the setup sets; a `service_tier = "default"` left by
/// an old client is dropped, as current Codex rejects it.
pub open spec fn top_level(t: Map<Seq<char>, Toml>, model: Seq<char>) -> Map<Seq<char>, Toml> {
    let t1 = t.insert(key_model(), Toml::Str(model)).insert(
        key_model_provider(),
        Toml::Str(PROVIDER_ID@),
    ).insert(key_catalog(), Toml::Str(MODEL_CATALOG_FILE@));
    if as_str(t1.get(key_service_tier())) == Some("default"@) {
        t1.remove(key_service_tier())
    } else {
        t1
    }
}

/// The configuration after the setup merged the site's provider into `t`, or
/// `None` where `model_providers` is not a table.
pub open spec fn merged_config(t: Map<Seq<char>, Toml>, model: Seq<char>, token: Option<Seq<char>>) -> Option<
    Map<Seq<char>, Toml>,
> {
    let t2 = top_level(t, model);
    let prov = Toml::Table(provider_entry(base_provider(t), token));
    match t.get(key_providers()) {
        None => Some(
            t2.insert(
                key_providers(),
                Toml::Table(Map::<Seq<char>, Toml>::empty().insert(PROVIDER_ID@, prov)),
            ),
        ),
        Some(Toml::Table(p)) => Some(
            t2.insert(
                key_providers(),
                Toml::Table(p.insert(PROVIDER_ID@, prov).remove(LEGACY_PROVIDER_ID@)),
            ),
        ),
        Some(_) => None,
    }
}

/// The error for a `model_providers` that is not a table.
pub open spec fn providers_type_error() -> Seq<char> {
    "现有 config.toml 的 model_providers 字段类型异常，无法合并写入"@
}

pub open spec fn opt_view(o: Option<&str>) -> Option<Seq<char>> {
    match o {
        Some(s) => Some(s@),
        None => None,
    }
}

/// The key and id literals that the configuration logic uses are distinct.
pub proof fn lemma_keys_distinct()
    ensures
        key_model() != key_model_provider(),
        key_model() != key_catalog(),
        key_model() != key_service_tier(),
        key_model() != key_providers(),
        key_model_provider() != key_catalog(),
        key_model_provider() != key_service_tier(),
        key_model_provider() != key_providers(),
        key_catalog() != key_service_tier(),
        key_catalog() != key_providers(),
        key_service_tier() != key_providers(),
        PROVIDER_ID@ != LEGACY_PROVIDER_ID@,
        PROVIDER_ID@ != Seq::<char>::empty(),
        LEGACY_PROVIDER_ID@ != Seq::<char>::empty(),
        "name"@ != "base_url"@,
        "name"@ != "wire_api"@,
        "base_url"@ != "wire_api"@,
        key_bearer() != "name"@,
        key_bearer() != "base_url"@,
        key_bearer() != "wire_api"@,
        "requires_openai_auth"@ != "name"@,
        "requires_openai_auth"@ != "base_url"@,
        "requires_openai_auth"@ != "wire_api"@,
        "requires_openai_auth"@ != key_bearer(),
        "env_key"@ != "name"@,
        "env_key"@ != "base_url"@,
        "env_key"@ != "wire_api"@,
        "env_key"@ != key_bearer(),
        MODEL_CATALOG_FILE@ != Seq::<char>::empty(),
{
    reveal_strlit("model");
    reveal_strlit("model_provider");
    reveal_strlit("model_catalog_json");
    reveal_strlit("service_tier");
    reveal_strlit("model_providers");
    reveal_strlit("custom");
    reveal_strlit("smartagent");
    reveal_strlit("name");
    reveal_strlit("base_url");
    reveal_strlit("wire_api");
    reveal_strlit("experimental_bearer_token");
    reveal_strlit("requires_openai_auth");
    reveal_strlit("env_key");
    reveal_strlit("smart-agent-models.json");
    assert(key_model().len() != key_model_provider().len());
    assert(key_model().len() != key_catalog().len());
    assert(key_model().len() != key_service_tier().len());
    assert(key_model().len() != key_providers().len());
    assert(key_model_provider().len() != key_catalog().len());
    assert(key_model_provider()[6] != key_service_tier()[6]);
    assert(key_model_provider().len() != key_providers().len());
    assert(key_catalog().len() != key_service_tier().len());
    assert(key_catalog().len() != key_providers().len());
    assert(key_service_tier().len() != key_providers().len());
    assert(PROVIDER_ID@.len() != LEGACY_PROVIDER_ID@.len());
    assert(PROVIDER_ID@.len() != 0);
    assert(LEGACY_PROVIDER_ID@.len() != 0);
    assert("name"@.len() != "base_url"@.len());
    assert("name"@[0] != "wire_api"@[0]);
    assert("base_url"@[0] != "wire_api"@[0]);
    assert(key_bearer().len() != "name"@.len());
    assert(key_bearer().len() != "base_url"@.len());
    assert(key_bearer().len() != "wire_api"@.len());
    assert("requires_openai_auth"@.len() != "name"@.len());
    assert("requires_openai_auth"@.len() != "base_url"@.len());
    assert("requires_openai_auth"@.len() != "wire_api"@.len());
    assert("requires_openai_auth"@.len() != key_bearer().len());
    assert("env_key"@.len() != "name"@.len());
    assert("env_key"@.len() != "base_url"@.len());
    assert("env_key"@[0] != "wire_api"@[0]);
    assert("env_key"@.len() != key_bearer().len());
    assert(MODEL_CATALOG_FILE@.len() != 0);
}

/// Whether the string value `v` equals `lit`.
fn value_is_str(v: Option<&TomlValue>, lit: &str) -> (res: bool)
    ensures
        res == (match v {
            Some(x) => as_str(Some(x@)) == Some(lit@),
            None => false,
        }),
{
    match v {
        Some(TomlValue::Str(s)) => str_eq(s.as_str(), lit),
        _ => false,
    }
}

/// `model_providers.<provider_id>.base_url` is the site's `/v1` root.
pub fn provider_base_url_matches(table: &TomlTable, provider_id: &str) -> (res: bool)
    ensures
        res == url_matches(table@, provider_id@),
{
    match table.get("model_providers") {
        Some(TomlValue::Table(p)) => {
            proof {
                lemma_table_view(*p);
            }
            match p.get(provider_id) {
                Some(TomlValue::Table(q)) => {
                    proof {
                        lemma_table_view(*q);
                    }
                    let url = v1_base_url();
                    match q.get("base_url") {
                        Some(TomlValue::Str(s)) => str_eq(s.as_str(), url.as_str()),
                        _ => false,
                    }
                },
                _ => false,
            }
        },
        _ => false,
    }
}

/// The configuration routes Codex to this site.
pub fn table_points_to_smartagent(table: &TomlTable) -> (res: bool)
    ensures
        res == points_to_site(table@),
{
    let active: &str = match table.get("model_provider") {
        Some(TomlValue::Str(s)) => s.as_str(),
        _ => "",
    };
    proof {
        assert(""@ =~= Seq::<char>::empty()) by {
            reveal_strlit("");
        }
    }
    let id_ok = str_eq(active, PROVIDER_ID) || str_eq(active, LEGACY_PROVIDER_ID);
    id_ok && provider_base_url_matches(table, active)
}

/// Merges the site's provider into an existing configuration (the user's other
/// settings stay): sets the model, the active provider and the model catalog,
/// and writes `[model_providers.custom]` with the site's address and, when one
/// is given, the API key as `experimental_bearer_token`. The legacy provider
/// table is removed so that two providers never coexist.
pub fn build_config_table(table: TomlTable, model: &str, bearer_token: Option<&str>) -> (res:
    Result<TomlTable, AppError>)
    ensures
        match merged_config(table@, model@, opt_view(bearer_token)) {
            Some(m) => res matches Ok(r) && r@ == m,
            None => res matches Err(e) && e@ == message(providers_type_error()),
        },
{
    let ghost t0 = table@;
    proof {
        lemma_keys_distinct();
    }
    let mut table = table;
    table.insert("model", TomlValue::Str(model.to_owned()));
    table.insert("model_provider", TomlValue::Str(PROVIDER_ID.to_owned()));
    table.insert("model_catalog_json", TomlValue::Str(MODEL_CATALOG_FILE.to_owned()));
    let is_default = value_is_str(table.get("service_tier"), "default");
    if is_default {
        table.remove("service_tier");
    }
    let ghost t2 = table@;
    assert(t2 == top_level(t0, model@));
    let providers_val = table.take("model_providers");
    let mut providers = match providers_val {
        None => TomlTable::new(),
        Some(TomlValue::Table(p)) => {
            proof {
                lemma_table_view(p);
            }
            p
        },
        Some(_) => {
            return Err(AppError::msg("现有 config.toml 的 model_providers 字段类型异常，无法合并写入"));
        },
    };
    let ghost p0 = providers@;
    let custom = providers.take(PROVIDER_ID);
    let legacy = providers.take(LEGACY_PROVIDER_ID);
    let mut provider = match custom {
        Some(TomlValue::Table(q)) => {
            proof {
                lemma_table_view(q);
            }
            q
        },
        _ => match legacy {
            Some(TomlValue::Table(q)) => {
                proof {
                    lemma_table_view(q);
                }
                q
            },
            _ => TomlTable::new(),
        },
    };
    assert(provider@ == base_provider(t0));
    provider.insert("name", TomlValue::Str("Smart Agent".to_owned()));
    provider.insert("base_url", TomlValue::Str(v1_base_url()));
    provider.insert("wire_api", TomlValue::Str("responses".to_owned()));
    match bearer_token {
        Some(token) => {
            provider.insert("experimental_bearer_token", TomlValue::Str(token.to_owned()));
        },
        None => {},
    }
    provider.remove("requires_openai_auth");
    provider.remove("env_key");
    let ghost prov = provider@;
    assert(prov == provider_entry(base_provider(t0), opt_view(bearer_token)));
    let pv = TomlValue::Table(provider);
    proof {
        lemma_table_view(provider);
    }
    providers.insert(PROVIDER_ID, pv);
    proof {
        assert(providers@ =~= p0.insert(PROVIDER_ID@, Toml::Table(prov)).remove(
            LEGACY_PROVIDER_ID@,
        ));
    }
    let ghost pm = providers@;
    let pt = TomlValue::Table(providers);
    proof {
        lemma_table_view(providers);
    }
    table.insert("model_providers", pt);
    proof {
        assert(table@ =~= t2.insert(key_providers(), Toml::Table(pm)));
        assert(t2.get(key_providers()) == t0.get(key_providers()));
        match t0.get(key_providers()) {
            None => {
                assert(p0 =~= Map::<Seq<char>, Toml>::empty());
                assert(pm =~= Map::<Seq<char>, Toml>::empty().insert(PROVIDER_ID@, Toml::Table(prov)));
            },
            Some(_) => {},
        }
    }
    Ok(table)
}

/// The setup on an existing configuration, or on an empty one where the
/// existing text did not parse (`None`) or could not be merged.
pub open spec fn setup_or_fresh(existing: Option<Map<Seq<char>, Toml>>, model: Seq<char>, token: Option<Seq<char>>) -> Map<Seq<char>, Toml> {
    match existing {
        Some(t) => match merged_config(t, model, token) {
            Some(m) => m,
            None => merged_config(Map::empty(), model, token)->0,
        },
        None => merged_config(Map::empty(), model, token)->0,
    }
}

/// Builds the configuration to write: merged into the existing table where it
/// parsed and can be merged, else built on an empty one.
pub fn build_config_or_fresh(existing: Option<TomlTable>, model: &str, bearer_token: Option<&str>) -> (res: TomlTable)
    ensures
        res@ == setup_or_fresh(
            match existing {
                Some(t) => Some(t@),
                None => None,
            },
            model@,
            opt_view(bearer_token),
        ),
{
    if let Some(t) = existing {
        if let Ok(r) = build_config_table(t, model, bearer_token) {
            return r;
        }
    }
    match build_config_table(TomlTable::new(), model, bearer_token) {
        Ok(r) => r,
        Err(_) => {
            proof {
                assert(Map::<Seq<char>, Toml>::empty().get(key_providers()) is None);
            }
            TomlTable::new()
        },
    }
}

/// The configuration as stored for another tool: the same, without the live
/// API key in the site's provider table.
pub open spec fn without_token(t: Map<Seq<char>, Toml>) -> Map<Seq<char>, Toml> {
    match as_table(t.get(key_providers())) {
        Some(p) => match as_table(p.get(PROVIDER_ID@)) {
            Some(q) => t.insert(
                key_providers(),
                Toml::Table(p.insert(PROVIDER_ID@, Toml::Table(q.remove(key_bearer())))),
            ),
            None => t,
        },
        None => t,
    }
}

/// Removes `experimental_bearer_token` from `[model_providers.custom]`.
pub fn config_without_smartagent_live_token(table: TomlTable) -> (res: TomlTable)
    ensures
        res@ == without_token(table@),
{
    let ghost t0 = table@;
    let mut table = table;
    match table.take("model_providers") {
        Some(TomlValue::Table(p)) => {
            proof {
                lemma_table_view(p);
            }
            let ghost p0 = p@;
            let mut p = p;
            match p.take(PROVIDER_ID) {
                Some(TomlValue::Table(q)) => {
                    proof {
                        lemma_table_view(q);
                    }
                    let mut q = q;
                    q.remove("experimental_bearer_token");
                    proof {
                        lemma_table_view(q);
                    }
                    p.insert(PROVIDER_ID, TomlValue::Table(q));
                    proof {
                        assert(p@ =~= p0.insert(PROVIDER_ID@, Toml::Table(q@)));
                    }
                },
                Some(other) => {
                    p.insert(PROVIDER_ID, other);
                    proof {
                        assert(p@ =~= p0);
                    }
                },
                None => {
                    proof {
                        assert(p@ =~= p0);
                    }
                },
            }
            proof {
                lemma_table_view(p);
            }
            table.insert("model_providers", TomlValue::Table(p));
            proof {
                assert(table@ =~= without_token(t0));
            }
        },
        Some(other) => {
            table.insert("model_providers", other);
            proof {
                assert(table@ =~= t0);
            }
        },
        None => {},
    }
    table
}

/// `model_catalog_json` names this client's catalog file.
pub open spec fn catalog_is_ours(t: Map<Seq<char>, Toml>) -> bool {
    match as_str(t.get(key_catalog())) {
        Some(s) => file_name(s) == Some(MODEL_CATALOG_FILE@),
        None => false,
    }
}

/// Codex's configuration after disconnecting: the site's provider entries are
/// removed (only `custom` when it points at this site, so that a user's own
/// `custom` provider survives; the legacy one always), `model_provider` and
/// `model` go where they selected the site, the catalog reference goes where
/// it names this client's file, and a stale `service_tier = "default"` goes.
pub open spec fn cleaned_config(t: Map<Seq<char>, Toml>) -> Map<Seq<char>, Toml> {
    let a = active_provider(t);
    let managed = (a == PROVIDER_ID@ && url_matches(t, PROVIDER_ID@)) || a == LEGACY_PROVIDER_ID@;
    let t1 = if as_str(t.get(key_service_tier())) == Some("default"@) {
        t.remove(key_service_tier())
    } else {
        t
    };
    let t2 = if managed {
        t1.remove(key_model_provider()).remove(key_model())
    } else {
        t1
    };
    let t3 = if catalog_is_ours(t) {
        t2.remove(key_catalog())
    } else {
        t2
    };
    match as_table(t.get(key_providers())) {
        Some(p) => {
            let p1 = if url_matches(t, PROVIDER_ID@) {
                p.remove(PROVIDER_ID@)
            } else {
                p
            };
            let p2 = p1.remove(LEGACY_PROVIDER_ID@);
            if p2 == Map::<Seq<char>, Toml>::empty() {
                t3.remove(key_providers())
            } else {
                t3.insert(key_providers(), Toml::Table(p2))
            }
        },
        None => t3,
    }
}

/// Takes this site's settings out of Codex's configuration.
pub fn clean_smartagent_from_config(table: TomlTable) -> (res: TomlTable)
    ensures
        res@ == cleaned_config(table@),
{
    let ghost t0 = table@;
    proof {
        lemma_keys_distinct();
        reveal_strlit("");
        assert(""@ =~= Seq::<char>::empty());
    }
    let mut table = table;
    let active: String = match table.get("model_provider") {
        Some(TomlValue::Str(s)) => s.clone(),
        _ => "".to_owned(),
    };
    assert(active@ == active_provider(t0));
    let custom_matches = provider_base_url_matches(&table, PROVIDER_ID);
    let managed = (str_eq(active.as_str(), PROVIDER_ID) && custom_matches) || str_eq(
        active.as_str(),
        LEGACY_PROVIDER_ID,
    );
    let catalog_ours = match table.get("model_catalog_json") {
        Some(TomlValue::Str(s)) => match path_file_name(s.as_str()) {
            Some(n) => {
                let ours = chars_of(MODEL_CATALOG_FILE);
                vec_eq(&n, &ours)
            },
            None => false,
        },
        _ => false,
    };
    if value_is_str(table.get("service_tier"), "default") {
        table.remove("service_tier");
    }
    if managed {
        table.remove("model_provider");
        table.remove("model");
    }
    if catalog_ours {
        table.remove("model_catalog_json");
    }
    let ghost t3 = table@;
    match table.take("model_providers") {
        Some(TomlValue::Table(p)) => {
            proof {
                lemma_table_view(p);
            }
            let mut p = p;
            if custom_matches {
                p.remove(PROVIDER_ID);
            }
            p.remove(LEGACY_PROVIDER_ID);
            if !p.is_empty() {
                proof {
                    lemma_table_view(p);
                }
                table.insert("model_providers", TomlValue::Table(p));
            }
            proof {
                assert(table@ =~= cleaned_config(t0));
            }
        },
        Some(other) => {
            table.insert("model_providers", other);
            proof {
                assert(table@ =~= t3);
                assert(table@ =~= cleaned_config(t0));
            }
        },
        None => {
            proof {
                assert(table@ =~= cleaned_config(t0));
            }
        },
    }
    table
}

proof fn lemma_catalog_file_name()
    ensures
        file_name(MODEL_CATALOG_FILE@) == Some(MODEL_CATALOG_FILE@),
{
    let s = MODEL_CATALOG_FILE@;
    reveal_strlit("smart-agent-models.json");
    assert(forall|j: int| 0 <= j < s.len() ==> #[trigger] s[j] != '/');
    crate::text::lemma_no_slash_segment(s);
    assert(s != seq!['.']);
    assert(s != seq!['.', '.']);
}

/// After the setup, Codex is routed to this site.
pub proof fn law_setup_routes_to_site(t: Map<Seq<char>, Toml>, model: Seq<char>, token: Option<Seq<char>>)
    requires
        merged_config(t, model, token) is Some,
    ensures
        points_to_site(merged_config(t, model, token)->0),
{
    lemma_keys_distinct();
}

/// The setup keeps the user's other settings: every top-level key that it
/// does not own, and every other provider table, stays as it was; the active
/// provider is always `custom`, never a reserved id.
pub proof fn law_setup_keeps_other_settings(t: Map<Seq<char>, Toml>, model: Seq<char>, token: Option<Seq<char>>)
    requires
        merged_config(t, model, token) is Some,
    ensures
        ({
            let m = merged_config(t, model, token)->0;
            &&& forall|k: Seq<char>|
                k != key_model() && k != key_model_provider() && k != key_catalog() && k
                    != key_service_tier() && k != key_providers() ==> #[trigger] m.get(k) == t.get(k)
            &&& active_provider(m) == PROVIDER_ID@
            &&& as_str(m.get(key_model())) == Some(model)
            &&& forall|id: Seq<char>|
                id != PROVIDER_ID@ && id != LEGACY_PROVIDER_ID@ ==> #[trigger] as_table(m.get(key_providers()))->0.get(id)
                    == match as_table(t.get(key_providers())) {
                    Some(p) => p.get(id),
                    None => None,
                }
        }),
{
    lemma_keys_distinct();
}

/// The site's provider table after the setup: it names Smart Agent, points at
/// the site's `/v1` root over the Responses API, carries the given key as the
/// bearer token, and holds neither `requires_openai_auth` nor `env_key`
/// (Codex must use the issued key, not an OpenAI login), whatever the existing
/// table held. Every other setting of the existing `custom` table (else of the
/// legacy table) stays; without a key, an existing bearer token stays too.
pub proof fn law_site_provider_table(t: Map<Seq<char>, Toml>, model: Seq<char>, token: Option<Seq<char>>)
    requires
        merged_config(t, model, token) is Some,
    ensures
        ({
            let m = merged_config(t, model, token)->0;
            let old = match as_table(t.get(key_providers())) {
                Some(p) => match as_table(p.get(PROVIDER_ID@)) {
                    Some(c) => c,
                    None => match as_table(p.get(LEGACY_PROVIDER_ID@)) {
                        Some(l) => l,
                        None => Map::empty(),
                    },
                },
                None => Map::empty(),
            };
            &&& as_table(m.get(key_providers())) is Some
            &&& as_table(as_table(m.get(key_providers()))->0.get(PROVIDER_ID@)) is Some
            &&& ({
                let q = as_table(as_table(m.get(key_providers()))->0.get(PROVIDER_ID@))->0;
                &&& !q.contains_key("requires_openai_auth"@)
                &&& !q.contains_key("env_key"@)
                &&& q.get("name"@) == Some(Toml::Str("Smart Agent"@))
                &&& q.get("base_url"@) == Some(Toml::Str(spec_v1_base_url()))
                &&& q.get("wire_api"@) == Some(Toml::Str("responses"@))
                &&& (token matches Some(tk) ==> q.get(key_bearer()) == Some(Toml::Str(tk)))
                &&& (token is None ==> q.get(key_bearer()) == old.get(key_bearer()))
                &&& forall|k: Seq<char>|
                    k != "name"@ && k != "base_url"@ && k != "wire_api"@ && k != key_bearer() && k
                        != "requires_openai_auth"@ && k != "env_key"@ ==> #[trigger] q.get(k) == old.get(k)
            })
        }),
{
    lemma_keys_distinct();
    reveal_strlit("requires_openai_auth");
    reveal_strlit("env_key");
    reveal_strlit("experimental_bearer_token");
    assert(key_bearer() != "requires_openai_auth"@);
    assert(key_bearer() != "env_key"@);
}

/// Whatever the existing configuration, the configuration that the setup
/// writes routes Codex to this site.
pub proof fn law_written_config_routes_to_site(existing: Option<Map<Seq<char>, Toml>>, model: Seq<char>, token: Option<Seq<char>>)
    ensures
        points_to_site(setup_or_fresh(existing, model, token)),
{
    lemma_keys_distinct();
    assert(Map::<Seq<char>, Toml>::empty().get(key_providers()) is None);
}

/// Setting up twice with the same model and key gives what setting up once gave.
pub proof fn law_setup_idempotent(t: Map<Seq<char>, Toml>, model: Seq<char>, token: Option<Seq<char>>)
    requires
        merged_config(t, model, token) is Some,
    ensures
        merged_config(merged_config(t, model, token)->0, model, token) == merged_config(t, model, token),
{
    lemma_keys_distinct();
    let m = merged_config(t, model, token)->0;
    let prov = provider_entry(base_provider(t), token);
    assert(base_provider(m) == prov);
    assert(provider_entry(prov, token) =~= prov);
    match t.get(key_providers()) {
        None => {
            let p = Map::<Seq<char>, Toml>::empty().insert(PROVIDER_ID@, Toml::Table(prov));
            assert(p.insert(PROVIDER_ID@, Toml::Table(prov)).remove(LEGACY_PROVIDER_ID@) =~= p);
        },
        Some(Toml::Table(p0)) => {
            let p = p0.insert(PROVIDER_ID@, Toml::Table(prov)).remove(LEGACY_PROVIDER_ID@);
            assert(p.insert(PROVIDER_ID@, Toml::Table(prov)).remove(LEGACY_PROVIDER_ID@) =~= p);
        },
        Some(_) => {},
    }
    assert(top_level(m, model) =~= top_level(t, model).insert(key_providers(), m[key_providers()]));
    assert(merged_config(m, model, token)->0 =~= m);
}

/// After disconnecting, Codex is not routed to this site, whatever the
/// configuration was.
pub proof fn law_disconnect_unroutes(t: Map<Seq<char>, Toml>)
    ensures
        !points_to_site(cleaned_config(t)),
{
    lemma_keys_distinct();
    let c = cleaned_config(t);
    let a = active_provider(t);
    let managed = (a == PROVIDER_ID@ && url_matches(t, PROVIDER_ID@)) || a == LEGACY_PROVIDER_ID@;
    if managed {
        assert(!c.contains_key(key_model_provider()));
        assert(active_provider(c) == Seq::<char>::empty());
    } else {
        assert(c.get(key_model_provider()) == t.get(key_model_provider()));
        assert(active_provider(c) == a);
        if a == PROVIDER_ID@ {
            assert(!url_matches(t, PROVIDER_ID@));
            match as_table(t.get(key_providers())) {
                Some(p) => {
                    assert(!url_matches(c, PROVIDER_ID@));
                },
                None => {
                    assert(!url_matches(c, PROVIDER_ID@));
                },
            }
        }
    }
}

/// Disconnecting after the setup gives back every setting that the setup does
/// not own, and leaves no trace of the site: no active provider, no model, no
/// catalog reference, and no provider table of the site.
pub proof fn law_disconnect_undoes_setup(t: Map<Seq<char>, Toml>, model: Seq<char>, token: Option<Seq<char>>)
    requires
        merged_config(t, model, token) is Some,
    ensures
        ({
            let c = cleaned_config(merged_config(t, model, token)->0);
            &&& forall|k: Seq<char>|
                k != key_model() && k != key_model_provider() && k != key_catalog() && k
                    != key_service_tier() && k != key_providers() ==> #[trigger] c.get(k) == t.get(k)
            &&& !c.contains_key(key_model())
            &&& !c.contains_key(key_model_provider())
            &&& !c.contains_key(key_catalog())
            &&& c.get(key_service_tier()) == (if as_str(t.get(key_service_tier())) == Some("default"@) {
                None
            } else {
                t.get(key_service_tier())
            })
            &&& match t.get(key_providers()) {
                Some(Toml::Table(p)) => {
                    let rest = p.remove(PROVIDER_ID@).remove(LEGACY_PROVIDER_ID@);
                    if rest == Map::<Seq<char>, Toml>::empty() {
                        !c.contains_key(key_providers())
                    } else {
                        c.get(key_providers()) == Some(Toml::Table(rest))
                    }
                },
                _ => !c.contains_key(key_providers()),
            }
        }),
{
    lemma_keys_distinct();
    lemma_catalog_file_name();
    let m = merged_config(t, model, token)->0;
    law_setup_routes_to_site(t, model, token);
    assert(active_provider(m) == PROVIDER_ID@);
    assert(catalog_is_ours(m));
    let c = cleaned_config(m);
    match t.get(key_providers()) {
        Some(Toml::Table(p)) => {
            let pm = p.insert(PROVIDER_ID@, Toml::Table(provider_entry(base_provider(t), token))).remove(LEGACY_PROVIDER_ID@);
            assert(pm.remove(PROVIDER_ID@).remove(LEGACY_PROVIDER_ID@) =~= p.remove(PROVIDER_ID@).remove(LEGACY_PROVIDER_ID@));
        },
        _ => {
            let pm = Map::<Seq<char>, Toml>::empty().insert(PROVIDER_ID@, Toml::Table(provider_entry(base_provider(t), token)));
            assert(pm.remove(PROVIDER_ID@).remove(LEGACY_PROVIDER_ID@) =~= Map::<Seq<char>, Toml>::empty());
        },
    }
}

/// The copy stored for another tool still routes to this site and holds no
/// API key in the site's provider table.
pub proof fn law_stored_copy_has_no_key(t: Map<Seq<char>, Toml>, model: Seq<char>, token: Option<Seq<char>>)
    requires
        merged_config(t, model, token) is Some,
    ensures
        points_to_site(without_token(merged_config(t, model, token)->0)),
        ({
            let s = without_token(merged_config(t, model, token)->0);
            match as_table(s.get(key_providers())) {
                Some(p) => match as_table(p.get(PROVIDER_ID@)) {
                    Some(q) => !q.contains_key(key_bearer()),
                    None => false,
                },
                None => false,
            }
        }),
{
    lemma_keys_distinct();
}

} // verus!
