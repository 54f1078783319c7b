use hosthog::claims::create_claim;
use hosthog::claims::expire;
use hosthog::claims::release_claims;
use hosthog::claims::ClaimError;
use hosthog::diskstate::claim_eq;
use hosthog::diskstate::ledger_contains;
use hosthog::diskstate::load_default;
use hosthog::diskstate::record_disabled_timer;
use hosthog::diskstate::record_enabled_timer;
use hosthog::diskstate::Claim;

fn claim(user: &str, timeout: i64, exclusive: bool) -> Claim {
    Claim {
        timeout,
        soft_timeout: None,
        exclusive,
        user: user.to_string(),
        comment: String::new(),
    }
}

#[test]
fn create_claim_appends() {
    let mut state = load_default();
    let r = create_claim(&mut state, "alice", 3600, Some(1800), true, "maint".to_string());
    let c = r.unwrap();
    assert_eq!(c.user, "alice");
    assert_eq!(c.timeout, 3600);
    assert_eq!(c.soft_timeout, Some(1800));
    assert!(c.exclusive);
    assert_eq!(c.comment, "maint");
    assert_eq!(state.claims.len(), 1);
    assert!(ledger_contains(&state, &c));
    assert!(state.hogger.is_none());
    assert!(state.overmounts.is_empty());
}

#[test]
fn exclusive_claim_of_other_user_rejects_any_new_claim() {
    let mut state = load_default();
    create_claim(&mut state, "alice", 3600, None, true, String::new()).unwrap();
    // an exclusive attempt by another user is rejected ...
    let r = create_claim(&mut state, "bob", 100, None, true, String::new());
    assert!(matches!(r, Err(ClaimError::ExclusiveClaimExists)));
    // ... and so is a plain one; the ledger is untouched either way
    let r = create_claim(&mut state, "bob", 100, None, false, String::new());
    assert!(matches!(r, Err(ClaimError::ExclusiveClaimExists)));
    assert_eq!(state.claims.len(), 1);
    assert_eq!(state.claims[0].user, "alice");
}

#[test]
fn same_user_may_stack_exclusive_claims() {
    let mut state = load_default();
    create_claim(&mut state, "alice", 3600, None, true, String::new()).unwrap();
    let r = create_claim(&mut state, "alice", 7200, None, true, String::new());
    assert!(r.is_ok());
    assert_eq!(state.claims.len(), 2);
}

#[test]
fn non_exclusive_claims_do_not_block_others() {
    let mut state = load_default();
    create_claim(&mut state, "alice", 3600, None, false, String::new()).unwrap();
    let r = create_claim(&mut state, "bob", 100, None, true, String::new());
    assert!(r.is_ok());
    assert_eq!(state.claims.len(), 2);
}

#[test]
fn expire_removes_exactly_the_timed_out_claims() {
    let mut state = load_default();
    state.claims.push(claim("a", 10, false));
    let mut soft = claim("b", 30, false);
    soft.soft_timeout = Some(5);
    state.claims.push(soft);
    state.claims.push(claim("c", 20, true));
    let removed = expire(&mut state, 20);
    // removed: timeout <= 20, in order; kept: the soft-timed-out claim stays
    assert_eq!(removed.len(), 2);
    assert_eq!(removed[0].user, "a");
    assert_eq!(removed[1].user, "c");
    assert_eq!(state.claims.len(), 1);
    assert_eq!(state.claims[0].user, "b");
    assert_eq!(state.claims[0].soft_timeout, Some(5));
}

#[test]
fn expire_on_empty_ledger_is_a_no_op() {
    let mut state = load_default();
    let removed = expire(&mut state, 1000);
    assert!(removed.is_empty());
    assert!(state.claims.is_empty());
}

#[test]
fn release_claims_removes_user_and_clears_matching_hogger() {
    let mut state = load_default();
    state.claims.push(claim("alice", 100, true));
    state.claims.push(claim("bob", 200, false));
    state.hogger = Some(claim("alice", 100, true));
    release_claims(&mut state, "alice");
    assert_eq!(state.claims.len(), 1);
    assert_eq!(state.claims[0].user, "bob");
    assert!(state.hogger.is_none());
}

#[test]
fn release_claims_keeps_foreign_hogger() {
    let mut state = load_default();
    state.claims.push(claim("bob", 200, true));
    state.hogger = Some(claim("bob", 200, true));
    release_claims(&mut state, "alice");
    assert_eq!(state.claims.len(), 1);
    assert!(state.hogger.is_some());
}

#[test]
fn release_claims_with_no_match_changes_nothing() {
    let mut state = load_default();
    state.claims.push(claim("bob", 200, false));
    release_claims(&mut state, "alice");
    assert_eq!(state.claims.len(), 1);
    assert!(state.hogger.is_none());
}

#[test]
fn claim_eq_compares_by_value() {
    let a = claim("alice", 100, true);
    let b = claim("alice", 100, true);
    let c = claim("alice", 101, true);
    assert!(claim_eq(&a, &b));
    assert!(!claim_eq(&a, &c));
    let mut d = claim("alice", 100, true);
    d.soft_timeout = Some(50);
    assert!(!claim_eq(&a, &d));
}

#[test]
fn disabled_timer_record_is_a_set_of_names() {
    let mut state = load_default();
    record_disabled_timer(&mut state, "fstrim.timer");
    record_disabled_timer(&mut state, "logrotate.timer");
    record_disabled_timer(&mut state, "fstrim.timer");
    assert_eq!(state.disabled_systemd_timers, vec!["fstrim.timer", "logrotate.timer"]);
    record_enabled_timer(&mut state, "fstrim.timer");
    assert_eq!(state.disabled_systemd_timers, vec!["logrotate.timer"]);
    record_enabled_timer(&mut state, "missing.timer");
    assert_eq!(state.disabled_systemd_timers, vec!["logrotate.timer"]);
}

#[test]
fn load_default_matches_documented_defaults() {
    let state = load_default();
    assert!(state.hogger.is_none());
    assert!(state.overmounts.is_empty());
    assert!(state.claims.is_empty());
    assert!(state.disabled_systemd_timers.is_empty());
    assert_eq!(
        state.settings.authorized_keys_file,
        vec!["%h/.ssh/authorized_keys", "/etc/ssh/authorized_keys.d/%u"]
    );
}
