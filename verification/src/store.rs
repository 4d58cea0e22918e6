//! Local account state: credentials, the chosen key and models, the setup
//! flags, and the device id; and the summary of it that the front end sees.

use vstd::prelude::*;

verus! {

/// Local persisted state.
#[derive(Debug)]
pub struct LocalStore {
    /// Personal access token (one per user; issuing a new one revokes the old).
    pub pat: Option<String>,
    pub user_id: Option<i64>,
    pub username: Option<String>,
    /// The API key in use (a full `sk-` key).
    pub sk_key: Option<String>,
    pub token_id: Option<i64>,
    pub token_name: Option<String>,
    /// This device's stable UUID.
    pub device_id: Option<String>,
    /// The first-run wizard is done.
    pub wizard_done: bool,
    /// The user wants Codex kept connected: only then may a configuration that
    /// Codex Desktop washed away be written back; after a disconnect it is false,
    /// so that nothing reconnects behind the user's back.
    pub codex_desired: bool,
    /// The models that the user allows Codex to use.
    pub selected_models: Vec<String>,
    /// The model that Codex starts with.
    pub default_model: Option<String>,
}

/// The summary of the local state that the front end sees; it holds no
/// credential.
#[derive(Debug)]
pub struct FrontState {
    pub wizard_done: bool,
    pub has_pat: bool,
    pub has_key: bool,
    /// The user's intent to keep Codex connected (the files on disk may differ).
    pub codex_desired: bool,
    pub username: Option<String>,
    pub user_id: Option<i64>,
    pub token_name: Option<String>,
}

/// The view of an optional string.
pub open spec fn ov(o: Option<String>) -> Option<Seq<char>> {
    match o {
        Some(s) => Some(s@),
        None => None,
    }
}

/// A copy of an optional string.
pub fn clone_opt(o: &Option<String>) -> (res: Option<String>)
    ensures
        ov(res) == ov(*o),
{
    match o {
        Some(s) => Some(s.clone()),
        None => None,
    }
}

impl LocalStore {
    /// The state of a fresh installation.
    pub fn empty() -> (res: LocalStore)
        ensures
            res.pat is None,
            res.user_id is None,
            res.username is None,
            res.sk_key is None,
            res.token_id is None,
            res.token_name is None,
            res.device_id is None,
            !res.wizard_done,
            !res.codex_desired,
            res.selected_models@.len() == 0,
            res.default_model is None,
    {
        LocalStore {
            pat: None,
            user_id: None,
            username: None,
            sk_key: None,
            token_id: None,
            token_name: None,
            device_id: None,
            wizard_done: false,
            codex_desired: false,
            selected_models: Vec::new(),
            default_model: None,
        }
    }
}

/// The front end's summary: flags for the credentials, never the credentials.
pub open spec fn front_state_of(s: LocalStore, f: FrontState) -> bool {
    &&& f.wizard_done == s.wizard_done
    &&& f.has_pat == s.pat is Some
    &&& f.has_key == s.sk_key is Some
    &&& f.codex_desired == s.codex_desired
    &&& ov(f.username) == ov(s.username)
    &&& f.user_id == s.user_id
    &&& ov(f.token_name) == ov(s.token_name)
}

impl FrontState {
    /// The summary of `s`.
    pub fn from_store(s: &LocalStore) -> (res: FrontState)
        ensures
            front_state_of(*s, res),
    {
        FrontState {
            wizard_done: s.wizard_done,
            has_pat: s.pat.is_some(),
            has_key: s.sk_key.is_some(),
            codex_desired: s.codex_desired,
            username: clone_opt(&s.username),
            user_id: s.user_id,
            token_name: clone_opt(&s.token_name),
        }
    }
}

/// The local state that the front end may read.
pub fn get_local_state(store: &LocalStore) -> (res: FrontState)
    ensures
        front_state_of(*store, res),
{
    FrontState::from_store(store)
}

/// Marks the first-run wizard done or not done; nothing else changes.
pub fn set_wizard_done(store: &mut LocalStore, done: bool)
    ensures
        final(store).wizard_done == done,
        *final(store) == (LocalStore { wizard_done: done, ..*old(store) }),
{
    store.wizard_done = done;
}

/// Nothing of the account is held: no credential, key, model choice or user,
/// and Codex is not wanted connected.
pub open spec fn logged_out_state(s: LocalStore) -> bool {
    &&& s.pat is None
    &&& s.sk_key is None
    &&& s.token_id is None
    &&& s.token_name is None
    &&& s.selected_models@.len() == 0
    &&& s.default_model is None
    &&& !s.codex_desired
    &&& s.user_id is None
    &&& s.username is None
}

/// After logging out, the front end sees a logged-out state: no access token,
/// no key, no user, no key name, and Codex not wanted connected.
pub proof fn law_logout_front_state(s: LocalStore, f: FrontState)
    requires
        logged_out_state(s),
        front_state_of(s, f),
    ensures
        !f.has_pat,
        !f.has_key,
        !f.codex_desired,
        f.username is None,
        f.user_id is None,
        f.token_name is None,
{
}

/// Logging out: every local credential and account detail is cleared, and
/// Codex is no longer wanted connected. The device id stays, as it names the
/// physical device, and so does the wizard flag. The token on the server is
/// left alone, so that the user's other devices are not affected.
pub fn logout(store: &mut LocalStore)
    ensures
        logged_out_state(*final(store)),
        final(store).device_id == old(store).device_id,
        final(store).wizard_done == old(store).wizard_done,
{
    store.pat = None;
    store.sk_key = None;
    store.token_id = None;
    store.token_name = None;
    store.selected_models.clear();
    store.default_model = None;
    store.codex_desired = false;
    store.user_id = None;
    store.username = None;
}

/// An ASCII hexadecimal digit, in either case.
pub open spec fn hex_char(c: char) -> bool {
    ('0' <= c <= '9') || ('a' <= c <= 'f') || ('A' <= c <= 'F')
}

/// Char `c` fits position `i` of a hyphenated UUID: a hyphen at 8, 13, 18
/// and 23, a hex digit elsewhere.
pub open spec fn hyphenated_char(c: char, i: int) -> bool {
    if i == 8 || i == 13 || i == 18 || i == 23 {
        c == '-'
    } else {
        hex_char(c)
    }
}

/// A hyphenated UUID: 36 chars, `8-4-4-4-12` hex digits.
pub open spec fn hyphenated_uuid(s: Seq<char>) -> bool {
    s.len() == 36 && forall|i: int| 0 <= i < 36 ==> hyphenated_char(#[trigger] s[i], i)
}

/// Whether `text` is a UUID that `uuid::Uuid::parse_str` accepts: 32 hex
/// digits; the hyphenated form; the hyphenated form in braces; or the
/// hyphenated form after `urn:uuid:` in any case. (Every accepted text is
/// ASCII, so its chars are its bytes.)
pub open spec fn uuid_accepts(text: Seq<char>) -> bool {
    if text.len() == 32 {
        forall|i: int| 0 <= i < 32 ==> hex_char(#[trigger] text[i])
    } else if text.len() == 36 {
        hyphenated_uuid(text)
    } else if text.len() == 38 {
        text[0] == '{' && text[37] == '}' && hyphenated_uuid(text.subrange(1, 37))
    } else if text.len() == 45 {
        crate::text::ascii_lower(text.take(9)) == "urn:uuid:"@ && hyphenated_uuid(text.skip(9))
    } else {
        false
    }
}

/// `uuid::Uuid::parse_str(s).is_ok()`: whether `s` parses as a UUID, in one of
/// the four forms that `uuid_accepts` lists (the crate's `try_parse`).
#[verifier::external_body]
pub(crate) fn uuid_parses(s: &str) -> (res: bool)
    ensures
        res == uuid_accepts(s@),
{
    uuid::Uuid::parse_str(s).is_ok()
}

/// `uuid::Uuid::new_v4().to_string()`: a random UUID in its 36-character
/// hyphenated form (lower-case hex). The value is random; what holds of every
/// outcome is its form. The crate panics where the system gives no random
/// bytes, which no precondition can rule out.
#[verifier::external_body]
fn new_uuid_string() -> (res: String)
    ensures
        hyphenated_uuid(res@),
{
    uuid::Uuid::new_v4().to_string()
}

impl LocalStore {
    /// Returns this device's id, creating a new random UUID where none is held
    /// or the held one does not parse; the flag tells whether the state changed
    /// (and must be saved).
    pub fn ensure_device_id(&mut self) -> (res: (String, bool))
        ensures
            ov(final(self).device_id) == Some(res.0@),
            uuid_accepts(res.0@),
            match old(self).device_id {
                Some(d) if uuid_accepts(d@) => res.0@ == d@ && !res.1 && *final(self) == *old(
                    self,
                ),
                _ => {
                    &&& uuid_accepts(res.0@)
                    &&& res.1
                    &&& ov(final(self).device_id) == Some(res.0@)
                    &&& *final(self) == (LocalStore { device_id: final(self).device_id, ..*old(self) })
                },
            },
    {
        if let Some(d) = &self.device_id {
            if uuid_parses(d.as_str()) {
                return (d.clone(), false);
            }
        }
        let id = new_uuid_string();
        self.device_id = Some(id.clone());
        (id, true)
    }
}

} // verus!
