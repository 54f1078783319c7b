use hosthog::diskstate::expand_authorized_keys_file;
use hosthog::diskstate::load_default;
use hosthog::diskstate::Claim;
use hosthog::hog::default_hog_users;
use hosthog::hog::do_release;
use hosthog::hog::escape;
use hosthog::hog::filter_excluded_users;
use hosthog::hog::find_hog_claim;
use hosthog::hog::needs_orphan_cleanup;
use hosthog::hog::overlay_content;
use hosthog::hog::overlay_file_name;
use hosthog::hog::plan_engage;
use hosthog::hog::record_disengage;
use hosthog::hog::record_engage;
use hosthog::hog::set_hogger;
use hosthog::hog::ssh_hogged_command;
use hosthog::hog::ssh_hogged_message;
use hosthog::hog::HogError;
use hosthog::hog::MountOutcome;
use hosthog::hog::User;

fn claim(user: &str, timeout: i64, exclusive: bool, comment: &str) -> Claim {
    Claim {
        timeout,
        soft_timeout: None,
        exclusive,
        user: user.to_string(),
        comment: comment.to_string(),
    }
}

#[test]
fn escape_doubles_underscores_and_flattens_slashes() {
    assert_eq!(escape("/etc/ssh/authorized_keys.d"), "_etc_ssh_authorized__keys.d");
    assert_eq!(escape("a_b/c"), "a__b_c");
    assert_eq!(escape(""), "");
}

#[test]
fn overlay_file_names_live_in_the_overlay_directory() {
    assert_eq!(
        overlay_file_name("/home/bob/.ssh/authorized_keys"),
        "/var/lib/hosthog/overlay/_home_bob_.ssh_authorized__keys"
    );
}

#[test]
fn hogged_message_names_user_comment_and_remainder() {
    let c = claim("alice", 145, true, "maint window");
    assert_eq!(
        ssh_hogged_message(&c, 100),
        "This system has been hogged by alice.\nComment: maint window\nThis claim will time out in 45s."
    );
}

#[test]
fn hogged_command_echoes_every_line() {
    assert_eq!(ssh_hogged_command("one\ntwo"), "echo one; echo two");
    assert_eq!(ssh_hogged_command("single"), "echo single");
    assert_eq!(ssh_hogged_command(""), "");
}

#[test]
fn overlay_content_guards_each_nonempty_line() {
    let out = overlay_content("keyA\n\nkeyB\n", "go away");
    assert_eq!(
        out,
        "restrict,command=\"echo go away\" keyA\n\nrestrict,command=\"echo go away\" keyB"
    );
}

#[test]
fn find_hog_claim_requires_an_exclusive_claim() {
    let mut state = load_default();
    state.claims.push(claim("alice", 100, false, ""));
    let r = find_hog_claim(&state, "alice");
    assert!(matches!(r, Err(HogError::NoExclusiveClaim)));
    // the decision reads the document only: nothing was touched
    assert!(state.overmounts.is_empty());
    assert!(state.hogger.is_none());
}

#[test]
fn find_hog_claim_rejects_a_foreign_hogger() {
    let mut state = load_default();
    state.claims.push(claim("alice", 100, true, ""));
    state.hogger = Some(claim("bob", 50, true, ""));
    state.claims.push(claim("bob", 50, true, ""));
    let r = find_hog_claim(&state, "alice");
    match r {
        Err(HogError::AlreadyHogged(u)) => assert_eq!(u, "bob"),
        other => panic!("expected a foreign-hogger refusal, got {:?}", other),
    }
}

#[test]
fn find_hog_claim_returns_the_first_matching_claim() {
    let mut state = load_default();
    state.claims.push(claim("alice", 100, false, "plain"));
    state.claims.push(claim("alice", 200, true, "first"));
    state.claims.push(claim("alice", 300, true, "second"));
    let c = find_hog_claim(&state, "alice").unwrap();
    assert_eq!(c.comment, "first");
    assert_eq!(c.timeout, 200);
}

#[test]
fn default_hog_users_falls_back_to_root_and_caller() {
    let r = default_hog_users(vec![], "alice");
    assert_eq!(r, vec!["root", "alice"]);
    let r = default_hog_users(vec!["carol".to_string()], "alice");
    assert_eq!(r, vec!["carol"]);
}

#[test]
fn filter_excluded_users_drops_the_spared_accounts() {
    let users = vec![
        User { name: "root".to_string(), home: "/root".to_string() },
        User { name: "alice".to_string(), home: "/home/alice".to_string() },
        User { name: "bob".to_string(), home: "/home/bob".to_string() },
    ];
    let exclude = vec!["root".to_string(), "alice".to_string()];
    let r = filter_excluded_users(users, &exclude);
    assert_eq!(r.len(), 1);
    assert_eq!(r[0].name, "bob");
    assert_eq!(r[0].home, "/home/bob");
}

#[test]
fn expand_walks_users_outer_templates_inner() {
    let state = load_default();
    let users = vec![
        User { name: "bob".to_string(), home: "/home/bob".to_string() },
        User { name: "carol".to_string(), home: "/home/carol".to_string() },
    ];
    let files = expand_authorized_keys_file(&state.settings, users);
    assert_eq!(
        files,
        vec![
            "/home/bob/.ssh/authorized_keys",
            "/etc/ssh/authorized_keys.d/bob",
            "/home/carol/.ssh/authorized_keys",
            "/etc/ssh/authorized_keys.d/carol",
        ]
    );
}

#[test]
fn expand_replaces_only_the_first_occurrence() {
    let mut state = load_default();
    state.settings.authorized_keys_file = vec!["%u/%u".to_string()];
    let users = vec![User { name: "bob".to_string(), home: "/h".to_string() }];
    let files = expand_authorized_keys_file(&state.settings, users);
    assert_eq!(files, vec!["bob/%u"]);
}

#[test]
fn plan_engage_skips_recorded_and_kernel_mounted_paths() {
    let candidates = vec!["/a".to_string(), "/b".to_string(), "/c".to_string(), "/d".to_string()];
    let overmounts = vec!["/b".to_string()];
    let kernel = vec![false, false, true, false];
    let plan = plan_engage(&candidates, &overmounts, &kernel);
    assert_eq!(plan, vec!["/a", "/d"]);
}

#[test]
fn record_engage_appends_only_mounted_files_and_counts_failures() {
    let mut state = load_default();
    state.overmounts.push("/old".to_string());
    let attempted = vec!["/a".to_string(), "/b".to_string(), "/c".to_string()];
    let outcomes = vec![MountOutcome::Mounted, MountOutcome::Missing, MountOutcome::Failed];
    let failed = record_engage(&mut state, &attempted, &outcomes);
    assert_eq!(failed, 1);
    assert_eq!(state.overmounts, vec!["/old", "/a"]);
    assert!(state.claims.is_empty());
    assert!(state.hogger.is_none());
}

#[test]
fn record_disengage_retains_exactly_the_failed_unmounts() {
    let mut state = load_default();
    state.overmounts = vec!["/a".to_string(), "/b".to_string(), "/c".to_string()];
    record_disengage(&mut state, &vec![true, false, true]);
    assert_eq!(state.overmounts, vec!["/b"]);
}

#[test]
fn engage_then_disengage_round_trips_to_empty() {
    let mut state = load_default();
    let attempted = vec!["/a".to_string(), "/b".to_string()];
    let outcomes = vec![MountOutcome::Mounted, MountOutcome::Mounted];
    record_engage(&mut state, &attempted, &outcomes);
    assert_eq!(state.overmounts, vec!["/a", "/b"]);
    let ok = vec![true; state.overmounts.len()];
    record_disengage(&mut state, &ok);
    assert!(state.overmounts.is_empty());
}

#[test]
fn release_clears_hogger_claims_and_overmounts() {
    let mut state = load_default();
    let c = claim("alice", 100, true, "");
    state.claims.push(c.clone());
    state.overmounts = vec!["/a".to_string(), "/b".to_string()];
    set_hogger(&mut state, c);
    let ok = vec![true, true];
    do_release(&mut state, "alice", &ok);
    assert!(state.hogger.is_none());
    assert!(state.overmounts.is_empty());
    assert!(state.claims.is_empty());
}

#[test]
fn release_twice_equals_release_once() {
    let mut once = load_default();
    once.claims.push(claim("alice", 100, true, ""));
    once.claims.push(claim("bob", 200, false, ""));
    once.overmounts = vec!["/a".to_string()];
    once.hogger = Some(claim("alice", 100, true, ""));
    let mut twice = load_default();
    twice.claims.push(claim("alice", 100, true, ""));
    twice.claims.push(claim("bob", 200, false, ""));
    twice.overmounts = vec!["/a".to_string()];
    twice.hogger = Some(claim("alice", 100, true, ""));

    do_release(&mut once, "alice", &vec![true]);
    do_release(&mut twice, "alice", &vec![true]);
    do_release(&mut twice, "alice", &vec![]);

    assert!(once.hogger.is_none() && twice.hogger.is_none());
    assert_eq!(once.overmounts, twice.overmounts);
    assert_eq!(once.claims.len(), twice.claims.len());
    assert_eq!(once.claims[0].user, "bob");
    assert_eq!(twice.claims[0].user, "bob");
}

#[test]
fn release_keeps_paths_whose_unmount_failed() {
    let mut state = load_default();
    state.overmounts = vec!["/a".to_string(), "/b".to_string()];
    do_release(&mut state, "alice", &vec![false, true]);
    assert_eq!(state.overmounts, vec!["/a"]);
}

#[test]
fn orphan_cleanup_is_needed_only_without_a_hogger() {
    let mut state = load_default();
    assert!(!needs_orphan_cleanup(&state));
    state.overmounts.push("/a".to_string());
    assert!(needs_orphan_cleanup(&state));
    state.hogger = Some(claim("alice", 100, true, ""));
    assert!(!needs_orphan_cleanup(&state));
}
