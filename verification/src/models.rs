//! The client configuration that the operator publishes, the update check,
//! and the choice of the one model that Codex uses.

use vstd::prelude::*;
use crate::error::{message, AppError};
use crate::json::{json_seq, lemma_json_seq, Json, JsonValue};
use crate::site::{DEFAULT_MODEL, WEBSITE_DOWNLOAD_URL, WEBSITE_URL};
use crate::store::{ov, LocalStore};
use crate::text::{
    all_digits, chars_of, dec, digit_char, digits_value, is_digit, is_ws, lemma_trim_idempotent, parse_u64,
    str_eq, string_of, sub_vec, trim, trim_end, trim_start, trim_str,
};

verus! {

/// What the operator publishes for clients.
#[derive(Debug)]
pub struct ClientConfig {
    pub default_model: String,
    pub models: Vec<String>,
    pub min_client_version: String,
    /// The newest version (optional update).
    pub latest_version: String,
    /// Where the update dialog sends the user.
    pub download_url: String,
    pub website_url: String,
    pub announcement: String,
    pub user_agreement: String,
    pub privacy_policy: String,
}

pub open spec fn views(v: Seq<String>) -> Seq<Seq<char>> {
    v.map_values(|s: String| s@)
}

impl ClientConfig {
    /// The configuration used where the site publishes none: the built-in
    /// default model, this client's version as both minimum and latest, and
    /// the built-in website addresses.
    pub fn fallback(version: &str) -> (res: ClientConfig)
        ensures
            res.default_model@ == DEFAULT_MODEL@,
            views(res.models@) == seq![DEFAULT_MODEL@],
            res.min_client_version@ == version@,
            res.latest_version@ == version@,
            res.download_url@ == WEBSITE_DOWNLOAD_URL@,
            res.website_url@ == WEBSITE_URL@,
            res.announcement@.len() == 0,
            res.user_agreement@.len() == 0,
            res.privacy_policy@.len() == 0,
    {
        let mut models: Vec<String> = Vec::new();
        models.push(DEFAULT_MODEL.to_owned());
        assert(views(models@) =~= seq![DEFAULT_MODEL@]);
        ClientConfig {
            default_model: DEFAULT_MODEL.to_owned(),
            models,
            min_client_version: version.to_owned(),
            latest_version: version.to_owned(),
            download_url: WEBSITE_DOWNLOAD_URL.to_owned(),
            website_url: WEBSITE_URL.to_owned(),
            announcement: String::new(),
            user_agreement: String::new(),
            privacy_policy: String::new(),
        }
    }
}

/// Fills in the built-in addresses where the site left the download page or
/// the website blank, so that the update dialog can always send the user somewhere.
pub fn finish_client_config(config: ClientConfig) -> (res: ClientConfig)
    ensures
        res.download_url@ == (if trim(config.download_url@).len() == 0 {
            WEBSITE_DOWNLOAD_URL@
        } else {
            config.download_url@
        }),
        res.website_url@ == (if trim(config.website_url@).len() == 0 {
            WEBSITE_URL@
        } else {
            config.website_url@
        }),
        res == (ClientConfig { download_url: res.download_url, website_url: res.website_url, ..config }),
{
    let mut config = config;
    if trim_str(config.download_url.as_str()).as_str().is_empty() {
        config.download_url = WEBSITE_DOWNLOAD_URL.to_owned();
    }
    if trim_str(config.website_url.as_str()).as_str().is_empty() {
        config.website_url = WEBSITE_URL.to_owned();
    }
    config
}

/// The `.`-separated parts of `s`, as `str::split('.')` gives them.
pub open spec fn split_dots(s: Seq<char>) -> Seq<Seq<char>>
    decreases s.len(),
{
    if s.len() == 0 {
        seq![Seq::empty()]
    } else {
        let p = split_dots(s.drop_last());
        if s.last() == '.' {
            p.push(Seq::empty())
        } else {
            p.update(p.len() - 1, p.last().push(s.last()))
        }
    }
}

/// The leading ASCII digits of `s`.
pub open spec fn lead_digits(s: Seq<char>) -> Seq<char>
    decreases s.len(),
{
    if s.len() == 0 || !is_digit(s[0]) {
        Seq::empty()
    } else {
        seq![s[0]] + lead_digits(s.drop_first())
    }
}

/// The number of a version part: its leading digits, or 0 where there are
/// none or they overflow.
pub open spec fn part_value(p: Seq<char>) -> u64 {
    match parse_u64(lead_digits(p)) {
        Some(v) => v,
        None => 0,
    }
}

/// The `x.y.z` numbers of a (trimmed) version; a missing part is 0.
pub open spec fn version_triple(v: Seq<char>) -> (u64, u64, u64) {
    let parts = split_dots(trim(v));
    (
        if parts.len() > 0 { part_value(parts[0]) } else { 0 },
        if parts.len() > 1 { part_value(parts[1]) } else { 0 },
        if parts.len() > 2 { part_value(parts[2]) } else { 0 },
    )
}

/// Lexicographic order of version triples.
pub open spec fn triple_less(a: (u64, u64, u64), b: (u64, u64, u64)) -> bool {
    a.0 < b.0 || (a.0 == b.0 && (a.1 < b.1 || (a.1 == b.1 && a.2 < b.2)))
}

/// `current` is older than `min`.
pub open spec fn older(current: Seq<char>, min: Seq<char>) -> bool {
    triple_less(version_triple(current), version_triple(min))
}

proof fn lemma_split_dots_nonempty(s: Seq<char>)
    ensures
        split_dots(s).len() >= 1,
    decreases s.len(),
{
    if s.len() > 0 {
        lemma_split_dots_nonempty(s.drop_last());
    }
}

fn split_parts(v: &Vec<char>) -> (res: Vec<Vec<char>>)
    ensures
        res@.map_values(|p: Vec<char>| p@) == split_dots(v@),
{
    let mut parts: Vec<Vec<char>> = Vec::new();
    parts.push(Vec::new());
    assert(parts@.map_values(|p: Vec<char>| p@) =~= split_dots(v@.take(0)));
    let mut i: usize = 0;
    while i < v.len()
        invariant
            i <= v@.len(),
            parts@.len() >= 1,
            parts@.map_values(|p: Vec<char>| p@) == split_dots(v@.take(i as int)),
        decreases v@.len() - i,
    {
        let c = v[i];
        let ghost before = parts@.map_values(|p: Vec<char>| p@);
        proof {
            assert(v@.take(i + 1).drop_last() =~= v@.take(i as int));
            assert(v@.take(i + 1).last() == c);
        }
        if c == '.' {
            parts.push(Vec::new());
            assert(parts@.map_values(|p: Vec<char>| p@) =~= before.push(Seq::empty()));
        } else {
            let mut last = parts.pop().unwrap();
            last.push(c);
            parts.push(last);
            assert(parts@.map_values(|p: Vec<char>| p@) =~= before.update(
                before.len() - 1,
                before.last().push(c),
            ));
        }
        i += 1;
    }
    assert(v@.take(v@.len() as int) =~= v@);
    parts
}

proof fn lemma_lead_digits(s: Seq<char>, k: int)
    requires
        0 <= k <= s.len(),
        forall|j: int| 0 <= j < k ==> is_digit(#[trigger] s[j]),
        k == s.len() || !is_digit(s[k]),
    ensures
        lead_digits(s) == s.take(k),
    decreases k,
{
    if k == 0 {
        assert(s.take(0) =~= Seq::<char>::empty());
    } else {
        lemma_lead_digits(s.drop_first(), k - 1);
        assert(s.take(k) =~= seq![s[0]] + s.drop_first().take(k - 1));
    }
}

fn part_number(p: &Vec<char>) -> (res: u64)
    ensures
        res == part_value(p@),
{
    let mut k: usize = 0;
    while k < p.len() && '0' <= p[k] && p[k] <= '9'
        invariant
            k <= p@.len(),
            forall|j: int| 0 <= j < k ==> is_digit(#[trigger] p@[j]),
        decreases p@.len() - k,
    {
        k += 1;
    }
    proof {
        lemma_lead_digits(p@, k as int);
        assert(p@.subrange(0, k as int) =~= p@.take(k as int));
    }
    let d = sub_vec(p, 0, k);
    let s = string_of(d.as_slice());
    match crate::text::parse_u64_str(s.as_str()) {
        Some(v) => v,
        None => 0,
    }
}

fn version_numbers(v: &str) -> (res: (u64, u64, u64))
    ensures
        res == version_triple(v@),
{
    let t = trim_str(v);
    let cs = chars_of(t.as_str());
    let parts = split_parts(&cs);
    let ghost ps = parts@.map_values(|p: Vec<char>| p@);
    let a = if parts.len() > 0 {
        part_number(&parts[0])
    } else {
        0
    };
    let b = if parts.len() > 1 {
        part_number(&parts[1])
    } else {
        0
    };
    let c = if parts.len() > 2 {
        part_number(&parts[2])
    } else {
        0
    };
    proof {
        if parts@.len() > 0 {
            assert(ps[0] == parts@[0]@);
        }
        if parts@.len() > 1 {
            assert(ps[1] == parts@[1]@);
        }
        if parts@.len() > 2 {
            assert(ps[2] == parts@[2]@);
        }
    }
    (a, b, c)
}

/// Whether version `current` is older than `min` (`x.y.z`, compared part by part).
pub fn version_less_than(current: &str, min: &str) -> (res: bool)
    ensures
        res == older(current@, min@),
{
    let a = version_numbers(current);
    let b = version_numbers(min);
    a.0 < b.0 || (a.0 == b.0 && (a.1 < b.1 || (a.1 == b.1 && a.2 < b.2)))
}

/// What the update dialog needs to know.
#[derive(Debug)]
pub struct UpdateCheckResult {
    pub current_version: String,
    pub min_client_version: String,
    pub latest_version: String,
    pub force_update: bool,
    pub soft_update: bool,
    pub download_url: String,
}

/// The latest version: the published one, or the minimum where none is published.
pub open spec fn latest_of(config: ClientConfig) -> Seq<char> {
    if trim(config.latest_version@).len() == 0 {
        trim(config.min_client_version@)
    } else {
        trim(config.latest_version@)
    }
}

/// Where an update is downloaded: the download page, else the website, else
/// the built-in download page.
pub open spec fn download_target(config: ClientConfig) -> Seq<char> {
    if trim(config.download_url@).len() > 0 {
        trim(config.download_url@)
    } else if trim(config.website_url@).len() > 0 {
        trim(config.website_url@)
    } else {
        WEBSITE_DOWNLOAD_URL@
    }
}

/// Where an update is fetched from: the operator's download page wherever it
/// is set (trimmed); the website only where the download page is blank; the
/// built-in download page where both are blank. The latest version is the
/// published one, or the minimum where none is published.
pub proof fn law_update_targets(config: ClientConfig)
    ensures
        trim(config.download_url@).len() > 0 ==> download_target(config) == trim(config.download_url@),
        trim(config.download_url@).len() == 0 && trim(config.website_url@).len() > 0 ==> download_target(config)
            == trim(config.website_url@),
        trim(config.download_url@).len() == 0 && trim(config.website_url@).len() == 0 ==> download_target(config)
            == WEBSITE_DOWNLOAD_URL@,
        trim(config.latest_version@).len() > 0 ==> latest_of(config) == trim(config.latest_version@),
        trim(config.latest_version@).len() == 0 ==> latest_of(config) == trim(config.min_client_version@),
{
}

/// Decides whether this client (`current`) must or may update: a forced
/// update below the minimum version, else an optional one below the latest.
pub fn check_client_update(current: &str, config: &ClientConfig) -> (res: UpdateCheckResult)
    ensures
        res.current_version@ == current@,
        res.min_client_version@ == trim(config.min_client_version@),
        res.latest_version@ == latest_of(*config),
        res.force_update == (trim(config.min_client_version@).len() > 0 && older(
            current@,
            trim(config.min_client_version@),
        )),
        res.soft_update == (!res.force_update && latest_of(*config).len() > 0 && older(
            current@,
            latest_of(*config),
        )),
        res.download_url@ == download_target(*config),
        !(res.force_update && res.soft_update),
{
    let min = trim_str(config.min_client_version.as_str());
    let l = trim_str(config.latest_version.as_str());
    let latest = if l.as_str().is_empty() {
        min.clone()
    } else {
        l
    };
    let force = !min.as_str().is_empty() && version_less_than(current, min.as_str());
    let soft = !force && !latest.as_str().is_empty() && version_less_than(current, latest.as_str());
    let d = trim_str(config.download_url.as_str());
    let download_url = if !d.as_str().is_empty() {
        d
    } else {
        let w = trim_str(config.website_url.as_str());
        if !w.as_str().is_empty() {
            w
        } else {
            WEBSITE_DOWNLOAD_URL.to_owned()
        }
    };
    UpdateCheckResult {
        current_version: current.to_owned(),
        min_client_version: min,
        latest_version: latest,
        force_update: force,
        soft_update: soft,
        download_url,
    }
}

/// The model list cleaned: each name trimmed, blanks dropped, the first of
/// each repeated name kept, in order.
pub open spec fn normalized(s: Seq<Seq<char>>) -> Seq<Seq<char>>
    decreases s.len(),
{
    if s.len() == 0 {
        Seq::empty()
    } else {
        let r = normalized(s.drop_last());
        let t = trim(s.last());
        if t.len() == 0 || r.contains(t) {
            r
        } else {
            r.push(t)
        }
    }
}

fn contains_string(v: &Vec<String>, s: &str) -> (res: bool)
    ensures
        res == views(v@).contains(s@),
{
    let mut i: usize = 0;
    while i < v.len()
        invariant
            i <= v@.len(),
            forall|j: int| 0 <= j < i ==> v@[j]@ != s@,
        decreases v@.len() - i,
    {
        if str_eq(v[i].as_str(), s) {
            assert(views(v@)[i as int] == s@);
            return true;
        }
        i += 1;
    }
    proof {
        if views(v@).contains(s@) {
            let j = choose|j: int| 0 <= j < views(v@).len() && views(v@)[j] == s@;
            assert(v@[j]@ == s@);
        }
    }
    false
}

/// Cleans a model list: trims each name, drops blanks and repeats.
pub fn normalize_model_list(models: Vec<String>) -> (res: Vec<String>)
    ensures
        views(res@) == normalized(views(models@)),
{
    let ghost ms = views(models@);
    let mut out: Vec<String> = Vec::new();
    let mut i: usize = 0;
    while i < models.len()
        invariant
            i <= models@.len(),
            ms == views(models@),
            views(out@) == normalized(ms.take(i as int)),
        decreases models@.len() - i,
    {
        proof {
            assert(ms.take(i + 1).drop_last() =~= ms.take(i as int));
            assert(ms.take(i + 1).last() == models@[i as int]@);
        }
        let t = trim_str(models[i].as_str());
        if !t.as_str().is_empty() && !contains_string(&out, t.as_str()) {
            let ghost before = views(out@);
            out.push(t);
            assert(views(out@) =~= before.push(t@));
        }
        i += 1;
    }
    assert(ms.take(models@.len() as int) =~= ms);
    out
}

/// The string items of a JSON array, in order.
pub open spec fn string_items(a: Seq<Json>) -> Seq<Seq<char>>
    decreases a.len(),
{
    if a.len() == 0 {
        Seq::empty()
    } else {
        let r = string_items(a.drop_last());
        match a.last().as_str() {
            Some(s) => r.push(s),
            None => r,
        }
    }
}

/// The models that the account may use, from `/api/user/models`: the string
/// items of the array, normalized; an error where the reply is not an array
/// or names no model.
pub fn user_models(data: &JsonValue) -> (res: Result<Vec<String>, AppError>)
    ensures
        match data@.as_array() {
            None => res matches Err(e) && e@ == message("可用模型列表格式异常"@),
            Some(a) => if normalized(string_items(a)).len() > 0 {
                res matches Ok(v) && views(v@) == normalized(string_items(a))
            } else {
                res matches Err(e) && e@ == message("当前账号暂无可用模型"@)
            },
        },
{
    let items = match data.as_array() {
        Some(a) => a,
        None => {
            return Err(AppError::msg("可用模型列表格式异常"));
        },
    };
    let ghost js = json_seq(items@);
    proof {
        lemma_json_seq(items@);
    }
    let mut strs: Vec<String> = Vec::new();
    let mut i: usize = 0;
    while i < items.len()
        invariant
            js == json_seq(items@),
            js.len() == items@.len(),
            forall|j: int| 0 <= j < items@.len() ==> #[trigger] js[j] == items@[j]@,
            i <= items@.len(),
            views(strs@) == string_items(js.take(i as int)),
        decreases items@.len() - i,
    {
        proof {
            assert(js.take(i + 1).drop_last() =~= js.take(i as int));
            assert(js.take(i + 1).last() == items@[i as int]@);
        }
        match items[i].as_str() {
            Some(s) => {
                let ghost before = views(strs@);
                strs.push(s.clone());
                assert(views(strs@) =~= before.push(s@));
            },
            None => {},
        }
        i += 1;
    }
    assert(js.take(items@.len() as int) =~= js);
    let models = normalize_model_list(strs);
    if models.len() == 0 {
        return Err(AppError::msg("当前账号暂无可用模型"));
    }
    Ok(models)
}

/// The models offered and the operator's preferred one, from the client
/// configuration: the normalized model list (the trimmed default model where
/// the list is empty); the default is preferred where it is on the list.
pub open spec fn offered_models(config: ClientConfig) -> Seq<Seq<char>> {
    let n = normalized(views(config.models@));
    let d = trim(config.default_model@);
    if n.len() == 0 && d.len() > 0 {
        seq![d]
    } else {
        n
    }
}

/// The models offered to the user and the preferred one, from the operator's
/// client configuration (never the account's own model list, which may hold
/// models that the operator did not choose to show).
pub fn client_config_models(config: &ClientConfig) -> (res: Result<(Vec<String>, Option<String>), AppError>)
    ensures
        ({
            let avail = offered_models(*config);
            let d = trim(config.default_model@);
            if avail.len() == 0 {
                res matches Err(e) && e@ == message("运营端尚未配置客户端展示模型"@)
            } else {
                res matches Ok(r) && views(r.0@) == avail && ov(r.1) == (if d.len() > 0
                    && avail.contains(d) {
                    Some(d)
                } else {
                    None
                })
            }
        }),
{
    let mut copy: Vec<String> = Vec::new();
    let mut i: usize = 0;
    while i < config.models.len()
        invariant
            i <= config.models@.len(),
            copy@ == config.models@.take(i as int),
        decreases config.models@.len() - i,
    {
        copy.push(config.models[i].clone());
        assert(copy@ =~= config.models@.take(i + 1));
        i += 1;
    }
    assert(config.models@.take(config.models@.len() as int) =~= config.models@);
    assert(copy@ == config.models@);
    let mut available = normalize_model_list(copy);
    let d = trim_str(config.default_model.as_str());
    if available.len() == 0 && !d.as_str().is_empty() {
        available.push(d.clone());
        assert(views(available@) =~= seq![d@]);
    }
    if available.len() == 0 {
        return Err(AppError::msg("运营端尚未配置客户端展示模型"));
    }
    let preferred = if !d.as_str().is_empty() && contains_string(&available, d.as_str()) {
        Some(d)
    } else {
        None
    };
    Ok((available, preferred))
}

/// The first of `selected` that is available.
pub open spec fn first_available(selected: Seq<Seq<char>>, avail: Seq<Seq<char>>) -> Option<Seq<char>>
    decreases selected.len(),
{
    if selected.len() == 0 {
        None
    } else {
        match first_available(selected.drop_last(), avail) {
            Some(m) => Some(m),
            None => if avail.contains(selected.last()) {
                Some(selected.last())
            } else {
                None
            },
        }
    }
}

/// The one model that Codex uses: the saved default where available; else the
/// first available of the saved selection; else the operator's preferred one
/// where available; else the first offered.
pub open spec fn active_model_of(default_model: Option<Seq<char>>, selected: Seq<Seq<char>>, avail: Seq<Seq<char>>, preferred: Option<Seq<char>>) -> Seq<char> {
    let default_ok = match default_model {
        Some(d) => avail.contains(d),
        None => false,
    };
    let preferred_ok = match preferred {
        Some(p) => avail.contains(p),
        None => false,
    };
    if default_ok {
        default_model->0
    } else {
        match first_available(selected, avail) {
            Some(m) => m,
            None => if preferred_ok {
                preferred->0
            } else {
                avail[0]
            },
        }
    }
}

proof fn lemma_first_available_extend(s: Seq<Seq<char>>, n: int, avail: Seq<Seq<char>>)
    requires
        0 < n <= s.len(),
        first_available(s.take(n), avail) is Some,
    ensures
        first_available(s, avail) == first_available(s.take(n), avail),
    decreases s.len() - n,
{
    if n < s.len() {
        assert(s.take(n + 1).drop_last() =~= s.take(n));
        lemma_first_available_extend(s, n + 1, avail);
    } else {
        assert(s.take(n) =~= s);
    }
}

/// Picks the active model from the saved choice and the offered models.
pub fn resolve_active_model(store: &LocalStore, available: &Vec<String>, preferred: &Option<String>) -> (res: String)
    requires
        available@.len() > 0,
    ensures
        res@ == active_model_of(ov(store.default_model), views(store.selected_models@), views(available@), ov(*preferred)),
        views(available@).contains(res@),
{
    match &store.default_model {
        Some(d) => {
            if contains_string(available, d.as_str()) {
                return d.clone();
            }
        },
        None => {},
    }
    let sel = &store.selected_models;
    let ghost ss = views(sel@);
    let mut i: usize = 0;
    while i < sel.len()
        invariant
            i <= sel@.len(),
            ss == views(sel@),
            sel@ == store.selected_models@,
            first_available(ss.take(i as int), views(available@)) is None,
            match ov(store.default_model) {
                Some(d) => !views(available@).contains(d),
                None => true,
            },
        decreases sel@.len() - i,
    {
        proof {
            assert(ss.take(i + 1).drop_last() =~= ss.take(i as int));
            assert(ss.take(i + 1).last() == sel@[i as int]@);
        }
        if contains_string(available, sel[i].as_str()) {
            proof {
                assert(first_available(ss.take(i + 1), views(available@)) == Some(sel@[i as int]@));
                lemma_first_available_extend(ss, i + 1, views(available@));
            }
            let r = sel[i].clone();
            proof {
                assert(r@ == sel@[i as int]@);
                assert(first_available(views(store.selected_models@), views(available@)) == Some(r@));
                match ov(store.default_model) {
                    Some(d) => assert(!views(available@).contains(d)),
                    None => {},
                }
            }
            return r;
        }
        i += 1;
    }
    assert(ss.take(sel@.len() as int) =~= ss);
    match preferred {
        Some(p) => {
            if contains_string(available, p.as_str()) {
                return p.clone();
            }
        },
        None => {},
    }
    assert(views(available@)[0] == available@[0]@);
    available[0].clone()
}

/// Saves `active` as the only selected model and the default one; tells whether
/// anything changed (and so must be saved).
pub fn select_model(store: &mut LocalStore, active: &str) -> (changed: bool)
    ensures
        views(final(store).selected_models@) == seq![active@],
        ov(final(store).default_model) == Some(active@),
        changed == !(views(old(store).selected_models@) == seq![active@] && ov(old(store).default_model)
            == Some(active@)),
        *final(store) == (LocalStore {
            selected_models: final(store).selected_models,
            default_model: final(store).default_model,
            ..*old(store)
        }),
{
    let same_sel = store.selected_models.len() == 1 && str_eq(
        store.selected_models[0].as_str(),
        active,
    );
    proof {
        if store.selected_models@.len() == 1 {
            assert(views(store.selected_models@)[0] == store.selected_models@[0]@);
            if views(store.selected_models@) == seq![active@] {
                assert(seq![active@][0] == active@);
            }
            if same_sel {
                assert(views(store.selected_models@) =~= seq![active@]);
            }
        } else {
            assert(seq![active@].len() == 1);
        }
    }
    let same_default = match &store.default_model {
        Some(d) => str_eq(d.as_str(), active),
        None => false,
    };
    let mut v: Vec<String> = Vec::new();
    v.push(active.to_owned());
    assert(views(v@) =~= seq![active@]);
    store.selected_models = v;
    store.default_model = Some(active.to_owned());
    !(same_sel && same_default)
}

proof fn lemma_first_available_in(selected: Seq<Seq<char>>, avail: Seq<Seq<char>>)
    ensures
        first_available(selected, avail) matches Some(m) ==> avail.contains(m),
    decreases selected.len(),
{
    if selected.len() > 0 {
        lemma_first_available_in(selected.drop_last(), avail);
    }
}

/// The active model is always one of the offered models.
pub proof fn law_active_model_is_offered(default_model: Option<Seq<char>>, selected: Seq<Seq<char>>, avail: Seq<Seq<char>>, preferred: Option<Seq<char>>)
    requires
        avail.len() > 0,
    ensures
        avail.contains(active_model_of(default_model, selected, avail, preferred)),
{
    lemma_first_available_in(selected, avail);
    assert(avail[0] == avail[0]);
}

/// Once saved, the active model stays the active model: resolving again with
/// it as the saved default and only selection gives it back.
pub proof fn law_active_model_is_stable(default_model: Option<Seq<char>>, selected: Seq<Seq<char>>, avail: Seq<Seq<char>>, preferred: Option<Seq<char>>)
    requires
        avail.len() > 0,
    ensures
        ({
            let m = active_model_of(default_model, selected, avail, preferred);
            active_model_of(Some(m), seq![m], avail, preferred) == m
        }),
{
    law_active_model_is_offered(default_model, selected, avail, preferred);
}

proof fn lemma_first_available_first(selected: Seq<Seq<char>>, avail: Seq<Seq<char>>)
    ensures
        first_available(selected, avail) is None <==> forall|i: int|
            0 <= i < selected.len() ==> !avail.contains(#[trigger] selected[i]),
        first_available(selected, avail) matches Some(m) ==> exists|i: int|
            0 <= i < selected.len() && #[trigger] selected[i] == m && avail.contains(m) && forall|j: int|
                0 <= j < i ==> !avail.contains(#[trigger] selected[j]),
    decreases selected.len(),
{
    if selected.len() > 0 {
        let p = selected.drop_last();
        lemma_first_available_first(p, avail);
        assert forall|i: int| 0 <= i < p.len() implies #[trigger] p[i] == selected[i] by {}
        if let Some(m) = first_available(p, avail) {
            let i = choose|i: int|
                0 <= i < p.len() && #[trigger] p[i] == m && avail.contains(m) && forall|j: int|
                    0 <= j < i ==> !avail.contains(#[trigger] p[j]);
            assert(selected[i] == p[i]);
            assert forall|j: int| 0 <= j < i implies !avail.contains(#[trigger] selected[j]) by {
                assert(selected[j] == p[j]);
            }
        } else {
            assert(selected[selected.len() - 1] == selected.last());
            assert forall|j: int| 0 <= j < selected.len() - 1 implies !avail.contains(#[trigger] selected[j]) by {
                assert(selected[j] == p[j]);
            }
            if first_available(selected, avail) is None {
                assert forall|i: int| 0 <= i < selected.len() implies !avail.contains(#[trigger] selected[i]) by {
                    if i < p.len() {
                        assert(selected[i] == p[i]);
                    }
                }
            }
        }
    }
}

/// How the active model is chosen, in order of precedence:
/// 1. the saved default model, where it is offered;
/// 2. else the first saved selection that is offered (none before it is);
/// 3. else the operator's preferred model, where it is offered;
/// 4. else the first offered model.
pub proof fn law_active_model_precedence(default_model: Option<Seq<char>>, selected: Seq<Seq<char>>, avail: Seq<Seq<char>>, preferred: Option<Seq<char>>)
    ensures
        ({
            let m = active_model_of(default_model, selected, avail, preferred);
            let default_offered = default_model matches Some(d) && avail.contains(d);
            let some_selected = exists|i: int| 0 <= i < selected.len() && avail.contains(#[trigger] selected[i]);
            let preferred_offered = preferred matches Some(p) && avail.contains(p);
            &&& default_offered ==> m == default_model->0
            &&& !default_offered && some_selected ==> exists|i: int|
                0 <= i < selected.len() && #[trigger] selected[i] == m && avail.contains(m) && forall|j: int|
                    0 <= j < i ==> !avail.contains(#[trigger] selected[j])
            &&& !default_offered && !some_selected && preferred_offered ==> m == preferred->0
            &&& !default_offered && !some_selected && !preferred_offered ==> m == avail[0]
        }),
{
    lemma_first_available_first(selected, avail);
}

/// A cleaned model list: every name trimmed and not blank, none repeated.
pub open spec fn clean_list(s: Seq<Seq<char>>) -> bool {
    &&& forall|i: int| 0 <= i < s.len() ==> trim(#[trigger] s[i]) == s[i] && s[i].len() > 0
    &&& forall|i: int, j: int| 0 <= i < j < s.len() ==> s[i] != s[j]
}

/// A cleaned model list has no blank, untrimmed or repeated name.
pub proof fn law_normalized_is_clean(s: Seq<Seq<char>>)
    ensures
        clean_list(normalized(s)),
    decreases s.len(),
{
    if s.len() > 0 {
        law_normalized_is_clean(s.drop_last());
        let r = normalized(s.drop_last());
        let t = trim(s.last());
        lemma_trim_idempotent(s.last());
        if !(t.len() == 0 || r.contains(t)) {
            let n = r.push(t);
            assert forall|i: int, j: int| 0 <= i < j < n.len() implies n[i] != n[j] by {
                if j == r.len() {
                    assert(r[i] == n[i]);
                }
            }
            assert forall|i: int| 0 <= i < n.len() implies trim(#[trigger] n[i]) == n[i] && n[i].len() > 0 by {
                if i < r.len() {
                    assert(n[i] == r[i]);
                }
            }
        }
    }
}

proof fn lemma_clean_fixed(r: Seq<Seq<char>>)
    requires
        clean_list(r),
    ensures
        normalized(r) == r,
    decreases r.len(),
{
    if r.len() > 0 {
        let p = r.drop_last();
        assert(clean_list(p)) by {
            assert forall|i: int| 0 <= i < p.len() implies trim(#[trigger] p[i]) == p[i] && p[i].len() > 0 by {
                assert(p[i] == r[i]);
            }
        }
        lemma_clean_fixed(p);
        assert(trim(r.last()) == r.last()) by {
            assert(r.last() == r[r.len() - 1]);
        }
        assert(!p.contains(r.last())) by {
            if p.contains(r.last()) {
                let k = choose|k: int| 0 <= k < p.len() && p[k] == r.last();
                assert(r[k] == r[r.len() - 1]);
            }
        }
        assert(p.push(r.last()) =~= r);
    }
}

/// Cleaning a model list a second time changes nothing.
pub proof fn law_normalize_idempotent(s: Seq<Seq<char>>)
    ensures
        normalized(normalized(s)) == normalized(s),
{
    law_normalized_is_clean(s);
    lemma_clean_fixed(normalized(s));
}

/// Cleaning loses no name and adds none: a name is in the cleaned list
/// exactly when it is the trimmed, non-blank form of some input name.
pub proof fn law_normalized_keeps_names(s: Seq<Seq<char>>, x: Seq<char>)
    ensures
        normalized(s).contains(x) <==> (x.len() > 0 && exists|i: int| 0 <= i < s.len() && trim(#[trigger] s[i]) == x),
    decreases s.len(),
{
    if s.len() > 0 {
        let p = s.drop_last();
        law_normalized_keeps_names(p, x);
        let r = normalized(p);
        let t = trim(s.last());
        if normalized(s).contains(x) {
            if r.contains(x) {
                let i = choose|i: int| 0 <= i < p.len() && trim(#[trigger] p[i]) == x;
                assert(s[i] == p[i]);
            } else {
                assert(r.push(t).contains(x));
                let k = choose|k: int| 0 <= k < r.push(t).len() && r.push(t)[k] == x;
                if k < r.len() {
                    assert(r[k] == x);
                }
                assert(trim(s[s.len() - 1]) == x);
            }
        }
        if x.len() > 0 && exists|i: int| 0 <= i < s.len() && trim(#[trigger] s[i]) == x {
            let i = choose|i: int| 0 <= i < s.len() && trim(#[trigger] s[i]) == x;
            if i < p.len() {
                assert(p[i] == s[i]);
                assert(r.contains(x));
                if !(t.len() == 0 || r.contains(t)) {
                    let k = choose|k: int| 0 <= k < r.len() && r[k] == x;
                    assert(r.push(t)[k] == x);
                }
            } else {
                assert(t == x);
                if !(t.len() == 0 || r.contains(t)) {
                    assert(r.push(t)[r.len() as int] == x);
                }
            }
        }
    }
}

/// Name `x` occurs (trimmed) in `s` before name `y` occurs there at all.
pub open spec fn occurs_before(s: Seq<Seq<char>>, x: Seq<char>, y: Seq<char>) -> bool {
    exists|i: int|
        0 <= i < s.len() && trim(#[trigger] s[i]) == x && forall|k: int| 0 <= k <= i ==> trim(#[trigger] s[k]) != y
}

/// Cleaning keeps the names in the order of their first occurrence: of two
/// cleaned names, the first occurs in the input before the second does.
pub proof fn law_normalized_keeps_first_order(s: Seq<Seq<char>>)
    ensures
        forall|p: int, q: int|
            #![trigger normalized(s)[p], normalized(s)[q]]
            0 <= p < q < normalized(s).len() ==> occurs_before(s, normalized(s)[p], normalized(s)[q]),
    decreases s.len(),
{
    if s.len() > 0 {
        let s0 = s.drop_last();
        law_normalized_keeps_first_order(s0);
        let r = normalized(s0);
        let t = trim(s.last());
        let n = normalized(s);
        assert forall|p: int, q: int| #![trigger n[p], n[q]] 0 <= p < q < n.len() implies occurs_before(s, n[p], n[q]) by {
            if q < r.len() {
                assert(n[p] == r[p] && n[q] == r[q]);
                assert(occurs_before(s0, r[p], r[q]));
                let i = choose|i: int|
                    0 <= i < s0.len() && trim(#[trigger] s0[i]) == r[p] && forall|k: int|
                        0 <= k <= i ==> trim(#[trigger] s0[k]) != r[q];
                assert(s[i] == s0[i]);
                assert forall|k: int| 0 <= k <= i implies trim(#[trigger] s[k]) != n[q] by {
                    assert(s[k] == s0[k]);
                }
            } else {
                assert(!(t.len() == 0 || r.contains(t)));
                assert(n == r.push(t));
                assert(n[q] == t);
                assert(n[p] == r[p]);
                assert(r.contains(r[p]));
                law_normalized_keeps_names(s0, r[p]);
                law_normalized_keeps_names(s0, t);
                let i = choose|i: int| 0 <= i < s0.len() && trim(#[trigger] s0[i]) == r[p];
                assert(s[i] == s0[i]);
                assert forall|k: int| 0 <= k <= i implies trim(#[trigger] s[k]) != n[q] by {
                    assert(s[k] == s0[k]);
                    if trim(s0[k]) == t {
                        assert(exists|j: int| 0 <= j < s0.len() && trim(#[trigger] s0[j]) == t);
                    }
                }
            }
        }
    } else {
        assert(normalized(s).len() == 0);
    }
}

proof fn lemma_dec_digits(n: nat)
    ensures
        dec(n).len() > 0,
        all_digits(dec(n)),
        digits_value(dec(n)) == n,
    decreases n,
{
    let c = digit_char(n % 10);
    assert(c as nat == 48 + n % 10);
    if n >= 10 {
        lemma_dec_digits(n / 10);
        let p = dec(n / 10);
        assert(dec(n) == p.push(c));
        assert(p.push(c).drop_last() =~= p);
        assert(p.push(c).last() == c);
        assert(digits_value(p.push(c)) == digits_value(p) * 10 + ((c as nat) - 48) as nat);
        assert((n / 10) * 10 + n % 10 == n);
        assert forall|i: int| 0 <= i < dec(n).len() implies is_digit(#[trigger] dec(n)[i]) by {
            if i < p.len() {
                assert(dec(n)[i] == p[i]);
            }
        }
    } else {
        assert(dec(n) == seq![c]);
        assert(seq![c].drop_last() =~= Seq::<char>::empty());
        assert(seq![c].last() == c);
        assert(digits_value(seq![c]) == digits_value(Seq::<char>::empty()) * 10 + ((c as nat) - 48) as nat);
        assert(n % 10 == n);
    }
}

proof fn lemma_lead_digits_all(s: Seq<char>)
    requires
        all_digits(s),
    ensures
        lead_digits(s) == s,
    decreases s.len(),
{
    if s.len() > 0 {
        assert(all_digits(s.drop_first())) by {
            assert forall|i: int| 0 <= i < s.drop_first().len() implies is_digit(#[trigger] s.drop_first()[i]) by {
                assert(s.drop_first()[i] == s[i + 1]);
            }
        }
        lemma_lead_digits_all(s.drop_first());
        assert(is_digit(s[0]));
        assert(seq![s[0]] + s.drop_first() =~= s);
    }
}

proof fn lemma_part_value_dec(n: u64)
    ensures
        part_value(dec(n as nat)) == n,
{
    let d = dec(n as nat);
    lemma_dec_digits(n as nat);
    lemma_lead_digits_all(d);
    assert(is_digit(d[0]));
}

/// `s` holds no `.`.
pub open spec fn no_dot(s: Seq<char>) -> bool {
    forall|i: int| 0 <= i < s.len() ==> s[i] != '.'
}

proof fn lemma_split_no_dot(p: Seq<char>, q: Seq<char>)
    requires
        no_dot(q),
    ensures
        split_dots(p + q) == split_dots(p).update(split_dots(p).len() - 1, split_dots(p).last() + q),
    decreases q.len(),
{
    lemma_split_dots_nonempty(p);
    let sp = split_dots(p);
    if q.len() == 0 {
        assert(p + q =~= p);
        assert(sp.last() + q =~= sp.last());
        assert(sp.update(sp.len() - 1, sp.last()) =~= sp);
    } else {
        let q0 = q.drop_last();
        assert(no_dot(q0)) by {
            assert forall|i: int| 0 <= i < q0.len() implies q0[i] != '.' by {
                assert(q0[i] == q[i]);
            }
        }
        lemma_split_no_dot(p, q0);
        assert(q.last() == q[q.len() - 1]);
        assert((p + q).drop_last() =~= p + q0);
        assert((p + q).last() == q.last());
        let s0 = split_dots(p + q0);
        assert(s0.last() == sp.last() + q0);
        assert((sp.last() + q0).push(q.last()) =~= sp.last() + q);
        assert(s0.update(s0.len() - 1, s0.last().push(q.last())) =~= sp.update(sp.len() - 1, sp.last() + q));
    }
}

proof fn lemma_split_dot(p: Seq<char>)
    ensures
        split_dots(p.push('.')) == split_dots(p).push(Seq::empty()),
{
    assert(p.push('.').drop_last() =~= p);
}

/// The version text `x.y.z` of three numbers, as they are written.
pub open spec fn version_text(v: (u64, u64, u64)) -> Seq<char> {
    dec(v.0 as nat) + seq!['.'] + dec(v.1 as nat) + seq!['.'] + dec(v.2 as nat)
}

proof fn lemma_dec_no_dot(n: nat)
    ensures
        no_dot(dec(n)),
{
    lemma_dec_digits(n);
    assert forall|i: int| 0 <= i < dec(n).len() implies dec(n)[i] != '.' by {
        assert(is_digit(dec(n)[i]));
    }
}

proof fn lemma_version_triple(v: (u64, u64, u64))
    ensures
        version_triple(version_text(v)) == v,
{
    let a = dec(v.0 as nat);
    let b = dec(v.1 as nat);
    let c = dec(v.2 as nat);
    lemma_dec_digits(v.0 as nat);
    lemma_dec_digits(v.1 as nat);
    lemma_dec_digits(v.2 as nat);
    lemma_dec_no_dot(v.0 as nat);
    lemma_dec_no_dot(v.1 as nat);
    lemma_dec_no_dot(v.2 as nat);
    let t = version_text(v);
    let e = Seq::<char>::empty();
    lemma_split_no_dot(e, a);
    assert(e + a =~= a);
    assert(split_dots(e) == seq![e]);
    assert(split_dots(a) =~= seq![a]);
    lemma_split_dot(a);
    assert(a + seq!['.'] =~= a.push('.'));
    lemma_split_no_dot(a.push('.'), b);
    assert(split_dots(a.push('.') + b) =~= seq![a, b]);
    lemma_split_dot(a.push('.') + b);
    lemma_split_no_dot((a.push('.') + b).push('.'), c);
    assert(t =~= (a.push('.') + b).push('.') + c);
    assert(split_dots(t) =~= seq![a, b, c]);
    assert(!is_ws(t[0])) by {
        assert(t[0] == a[0]);
        assert(is_digit(a[0]));
    }
    assert(!is_ws(t.last())) by {
        assert(t.last() == c[c.len() - 1]);
        assert(is_digit(c[c.len() - 1]));
    }
    assert(trim_start(t) == t);
    assert(trim_end(t) == t);
    lemma_part_value_dec(v.0);
    lemma_part_value_dec(v.1);
    lemma_part_value_dec(v.2);
}

/// Versions written as numbers `x.y.z` compare by their numbers, most
/// significant first (so `1.2.3` is older than `1.10.0`), not by their text.
pub proof fn law_versions_compare_by_number(a: (u64, u64, u64), b: (u64, u64, u64))
    ensures
        version_triple(version_text(a)) == a,
        older(version_text(a), version_text(b)) <==> (a.0 < b.0 || (a.0 == b.0 && a.1 < b.1) || (a.0 == b.0
            && a.1 == b.1 && a.2 < b.2)),
{
    lemma_version_triple(a);
    lemma_version_triple(b);
}

/// The version order is a strict order: no version is older than itself, and
/// "older than" is transitive and one-way.
pub proof fn law_older_is_strict_order(a: Seq<char>, b: Seq<char>, c: Seq<char>)
    ensures
        !older(a, a),
        older(a, b) ==> !older(b, a),
        older(a, b) && older(b, c) ==> older(a, c),
{
}

/// The models offered, the active one, and whether Codex was updated.
#[derive(Debug)]
pub struct ModelSettings {
    pub available_models: Vec<String>,
    /// The one model written into Codex (its model list is unreliable; only
    /// `config.model` takes effect).
    pub active_model: String,
    pub synced_to_codex: bool,
}

/// Checks the model that the user picked: trimmed, not blank, and offered.
pub fn validate_model_choice(active_model: &str, available: &Vec<String>) -> (res: Result<String, AppError>)
    ensures
        ({
            let t = trim(active_model@);
            if t.len() == 0 {
                res matches Err(e) && e@ == message("请选择一个模型"@)
            } else if !views(available@).contains(t) {
                res matches Err(e) && e@ == message("所选模型当前不可用"@)
            } else {
                res matches Ok(m) && m@ == t
            }
        }),
{
    let t = trim_str(active_model);
    if t.as_str().is_empty() {
        return Err(AppError::msg("请选择一个模型"));
    }
    if !contains_string(available, t.as_str()) {
        return Err(AppError::msg("所选模型当前不可用"));
    }
    Ok(t)
}

} // verus!
