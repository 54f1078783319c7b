//! The whole life of a hogging, end to end: claim, rejected rival, lockout,
//! expiry, automatic release.

use hosthog::claims::create_claim;
use hosthog::claims::parse_timeout;
use hosthog::claims::ClaimError;
use hosthog::diskstate::expand_authorized_keys_file;
use hosthog::diskstate::ledger_contains;
use hosthog::diskstate::load_default;
use hosthog::diskstate::maintenance;
use hosthog::hog::default_hog_users;
use hosthog::hog::do_release;
use hosthog::hog::filter_excluded_users;
use hosthog::hog::find_hog_claim;
use hosthog::hog::needs_orphan_cleanup;
use hosthog::hog::plan_engage;
use hosthog::hog::record_engage;
use hosthog::hog::set_hogger;
use hosthog::hog::MountOutcome;
use hosthog::hog::User;

fn accounts() -> Vec<User> {
    vec![
        User { name: "root".to_string(), home: "/root".to_string() },
        User { name: "alice".to_string(), home: "/home/alice".to_string() },
        User { name: "bob".to_string(), home: "/home/bob".to_string() },
    ]
}

#[test]
fn hogging_lifecycle() {
    let now: i64 = 1_000_000;
    let mut state = load_default();

    // user A claims one hour, exclusive
    let timeout = parse_timeout("1h", now).unwrap();
    assert_eq!(timeout, now + 3600);
    let _a_claim = create_claim(
        &mut state,
        "alice",
        timeout,
        None,
        true,
        "maint window".to_string(),
    )
    .unwrap();

    // user B's exclusive attempt is rejected, the ledger untouched
    let r = create_claim(&mut state, "bob", now + 100, None, true, String::new());
    assert!(matches!(r, Err(ClaimError::ExclusiveClaimExists)));
    assert_eq!(state.claims.len(), 1);

    // A hogs with no explicit users: root and A are spared
    let hog_claim = find_hog_claim(&state, "alice").unwrap();
    assert_eq!(hog_claim.comment, "maint window");
    let spared = default_hog_users(vec![], "alice");
    assert_eq!(spared, vec!["root", "alice"]);
    let targets = filter_excluded_users(accounts(), &spared);
    assert_eq!(targets.len(), 1);
    assert_eq!(targets[0].name, "bob");
    let candidates = expand_authorized_keys_file(&state.settings, targets);
    assert_eq!(
        candidates,
        vec!["/home/bob/.ssh/authorized_keys", "/etc/ssh/authorized_keys.d/bob"]
    );

    // nothing is recorded or kernel-mounted yet, so every candidate is attempted
    let kernel = vec![false; candidates.len()];
    let attempted = plan_engage(&candidates, &state.overmounts, &kernel);
    assert_eq!(attempted, candidates);
    let outcomes = vec![MountOutcome::Mounted; attempted.len()];
    let failed = record_engage(&mut state, &attempted, &outcomes);
    assert_eq!(failed, 0);
    assert_eq!(state.overmounts, candidates);
    assert!(ledger_contains(&state, &hog_claim));
    set_hogger(&mut state, hog_claim);
    assert!(state.hogger.is_some());

    // maintenance after the hour: the claim expires, the hogger is invalidated
    let mut needs_release = false;
    let removed = maintenance(&mut state, now + 3601, &mut needs_release);
    assert_eq!(removed.len(), 1);
    assert_eq!(removed[0].comment, "maint window");
    assert!(needs_release);
    assert!(state.claims.is_empty());

    // the release tears the lockout down and clears the hogger
    let ok = vec![true; state.overmounts.len()];
    do_release(&mut state, "alice", &ok);
    assert!(state.hogger.is_none());
    assert!(state.overmounts.is_empty());
    assert!(state.claims.is_empty());
    assert!(!needs_orphan_cleanup(&state));
}
