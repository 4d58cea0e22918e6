use smart_agent::api::{remember_key, remember_user, LoginOutcome};
use smart_agent::store::{get_local_state, logout, set_wizard_done, LocalStore};

fn logged_in() -> LocalStore {
    let mut s = LocalStore::empty();
    s.pat = Some("pat".to_string());
    s.user_id = Some(7);
    s.username = Some("alice".to_string());
    s.sk_key = Some("sk-1".to_string());
    s.token_id = Some(3);
    s.token_name = Some("Smart Agent 客户端".to_string());
    s.device_id = Some("71d737b3-854a-41a2-adce-3eb4426a6be2".to_string());
    s.wizard_done = true;
    s.codex_desired = true;
    s.selected_models = vec!["m".to_string()];
    s.default_model = Some("m".to_string());
    s
}

#[test]
fn the_front_end_sees_flags_not_credentials() {
    let f = get_local_state(&logged_in());
    assert!(f.wizard_done && f.has_pat && f.has_key && f.codex_desired);
    assert_eq!(f.username.as_deref(), Some("alice"));
    assert_eq!(f.user_id, Some(7));
    assert_eq!(f.token_name.as_deref(), Some("Smart Agent 客户端"));
    let f = get_local_state(&LocalStore::empty());
    assert!(!f.has_pat && !f.has_key && !f.wizard_done);
}

#[test]
fn logging_out_keeps_the_device() {
    let mut s = logged_in();
    logout(&mut s);
    assert!(s.pat.is_none() && s.sk_key.is_none() && s.token_id.is_none() && s.token_name.is_none());
    assert!(s.user_id.is_none() && s.username.is_none() && s.default_model.is_none());
    assert!(s.selected_models.is_empty() && !s.codex_desired);
    assert_eq!(s.device_id.as_deref(), Some("71d737b3-854a-41a2-adce-3eb4426a6be2"));
    assert!(s.wizard_done);
    let f = get_local_state(&s);
    assert!(!f.has_pat && !f.has_key && !f.codex_desired && f.username.is_none());
}

#[test]
fn the_wizard_flag_is_set_alone() {
    let mut s = logged_in();
    set_wizard_done(&mut s, false);
    assert!(!s.wizard_done);
    assert_eq!(s.sk_key.as_deref(), Some("sk-1"));
}

#[test]
fn a_valid_device_id_is_kept() {
    let mut s = logged_in();
    let (id, changed) = s.ensure_device_id();
    assert_eq!(id, "71d737b3-854a-41a2-adce-3eb4426a6be2");
    assert!(!changed);
}

#[test]
fn a_missing_or_broken_device_id_is_replaced_once() {
    let mut s = LocalStore::empty();
    s.device_id = Some("garbage".to_string());
    let (id, changed) = s.ensure_device_id();
    assert!(changed);
    assert!(uuid::Uuid::parse_str(&id).is_ok());
    assert_ne!(id, "garbage");
    assert_eq!(s.device_id.as_deref(), Some(id.as_str()));
    let (again, changed_again) = s.ensure_device_id();
    assert_eq!(again, id);
    assert!(!changed_again);

    let mut fresh = LocalStore::empty();
    let (id2, changed2) = fresh.ensure_device_id();
    assert!(changed2);
    assert_eq!(id2.len(), 36);
}

#[test]
fn login_and_key_details_are_remembered() {
    let mut s = LocalStore::empty();
    let outcome = LoginOutcome {
        require_2fa: false,
        flow_token: None,
        user_id: Some(9),
        username: Some("bob".to_string()),
    };
    remember_user(&mut s, &outcome);
    assert_eq!(s.user_id, Some(9));
    assert_eq!(s.username.as_deref(), Some("bob"));
    remember_key(&mut s, "sk-2".to_string(), 4, "k".to_string());
    assert_eq!(s.sk_key.as_deref(), Some("sk-2"));
    assert_eq!(s.token_id, Some(4));
    assert_eq!(s.token_name.as_deref(), Some("k"));
}
