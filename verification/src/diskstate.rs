//! The document of record: claims, the active hogger, recorded overmounts and
//! operator settings, together with the invariants that hold of it.

use vstd::prelude::*;
use vstd::string::StringExecFns;
use crate::strings::contains_str;
use crate::strings::seq_contains_str;
use crate::strings::spec_replace_first;
use crate::strings::str_eq;

verus! {

/// A grant of use of the host.
#[derive(Debug)]
#[verifier::ext_equal]
pub struct Claim {
    /// Hard expiry, in epoch seconds: the claim is removed once this instant
    /// has passed.
    pub timeout: i64,
    /// Advisory expiry, in epoch seconds: shown to users, never removes the
    /// claim.
    pub soft_timeout: Option<i64>,
    /// Whether the claim asserts exclusive use of the host.
    pub exclusive: bool,
    /// Login name of the claimant.
    pub user: String,
    /// Free-text annotation.
    pub comment: String,
}

/// The mathematical value of a [`Claim`].
#[verifier::ext_equal]
pub struct ClaimView {
    pub timeout: int,
    pub soft_timeout: Option<int>,
    pub exclusive: bool,
    pub user: Seq<char>,
    pub comment: Seq<char>,
}

/// The value of an optional instant.
pub open spec fn opt_instant_view(o: Option<i64>) -> Option<int> {
    match o {
        Some(t) => Some(t as int),
        None => None,
    }
}

impl View for Claim {
    type V = ClaimView;

    open spec fn view(&self) -> ClaimView {
        ClaimView {
            timeout: self.timeout as int,
            soft_timeout: opt_instant_view(self.soft_timeout),
            exclusive: self.exclusive,
            user: self.user@,
            comment: self.comment@,
        }
    }
}

impl DeepView for Claim {
    type V = ClaimView;

    open spec fn deep_view(&self) -> ClaimView {
        self.view()
    }
}

impl Clone for Claim {
    fn clone(&self) -> (r: Self)
        ensures
            r == *self,
    {
        let r = Claim {
            timeout: self.timeout,
            soft_timeout: self.soft_timeout,
            exclusive: self.exclusive,
            user: self.user.clone(),
            comment: self.comment.clone(),
        };
        proof {
            assert(r =~= *self);
        }
        r
    }
}

/// Field-for-field equality of two claims, stated over their values.
pub fn claim_eq(a: &Claim, b: &Claim) -> (r: bool)
    ensures
        r == (a@ == b@),
{
    let soft_eq = match (a.soft_timeout, b.soft_timeout) {
        (Option::None, Option::None) => true,
        (Option::Some(x), Option::Some(y)) => x == y,
        _ => false,
    };
    let r = a.timeout == b.timeout && soft_eq && a.exclusive == b.exclusive && str_eq(
        a.user.as_str(),
        b.user.as_str(),
    ) && str_eq(a.comment.as_str(), b.comment.as_str());
    proof {
        if r {
            assert(a@ =~= b@);
        }
    }
    r
}

/// Operator-configured credential-file path templates, as an SSH server's
/// authorized-keys-file setting lists them.  Read-only to this library.
#[verifier::ext_equal]
pub struct Settings {
    /// Path templates in which `%h` stands for a home directory and `%u` for
    /// a login name.
    pub authorized_keys_file: Vec<String>,
}

impl View for Settings {
    type V = Seq<Seq<char>>;

    open spec fn view(&self) -> Seq<Seq<char>> {
        self.authorized_keys_file.deep_view()
    }
}

/// The whole persisted document.
#[verifier::ext_equal]
pub struct DiskState {
    /// The claim under which the host is currently hogged, if any.
    pub hogger: Option<Claim>,
    /// Paths of all credential files currently shadowed by an overlay
    /// bind-mount.  If an unmount failed, the host may no longer be hogged
    /// while this list still holds entries; those are retried by maintenance.
    pub overmounts: Vec<String>,
    /// All current claims.
    pub claims: Vec<Claim>,
    /// Operator settings.
    pub settings: Settings,
    /// Timer units that were stopped on behalf of a hogging and are to be
    /// started again on release.
    pub disabled_systemd_timers: Vec<String>,
}

/// The mathematical value of a [`DiskState`].
#[verifier::ext_equal]
pub struct DiskStateView {
    pub hogger: Option<ClaimView>,
    pub overmounts: Seq<Seq<char>>,
    pub claims: Seq<ClaimView>,
    pub settings: Seq<Seq<char>>,
    pub disabled_systemd_timers: Seq<Seq<char>>,
}

impl View for DiskState {
    type V = DiskStateView;

    open spec fn view(&self) -> DiskStateView {
        DiskStateView {
            hogger: self.hogger.deep_view(),
            overmounts: self.overmounts.deep_view(),
            claims: self.claims.deep_view(),
            settings: self.settings@,
            disabled_systemd_timers: self.disabled_systemd_timers.deep_view(),
        }
    }
}

/// At most one distinct user holds exclusive claims: any two exclusive claims
/// belong to the same user.  Claim creation preserves this; see
/// [`crate::claims::lemma_create_claim_exclusivity`].
pub open spec fn exclusive_single_user(claims: Seq<ClaimView>) -> bool {
    forall|i: int, j: int|
        #![trigger claims[i], claims[j]]
        0 <= i < claims.len() && 0 <= j < claims.len() && claims[i].exclusive
            && claims[j].exclusive ==> claims[i].user == claims[j].user
}

/// The defaults a fresh document is created with.
pub open spec fn spec_default_state() -> DiskStateView {
    DiskStateView {
        hogger: None,
        overmounts: Seq::empty(),
        claims: Seq::empty(),
        settings: seq!["%h/.ssh/authorized_keys"@, "/etc/ssh/authorized_keys.d/%u"@],
        disabled_systemd_timers: Seq::empty(),
    }
}

/// A fresh document with the documented defaults.
pub fn load_default() -> (r: DiskState)
    ensures
        r@ == spec_default_state(),
{
    let mut templates: Vec<String> = Vec::new();
    templates.push(String::from_str("%h/.ssh/authorized_keys"));
    templates.push(String::from_str("/etc/ssh/authorized_keys.d/%u"));
    let r = DiskState {
        hogger: None,
        overmounts: Vec::new(),
        claims: Vec::new(),
        settings: Settings { authorized_keys_file: templates },
        disabled_systemd_timers: Vec::new(),
    };
    proof {
        assert(r@.settings =~= spec_default_state().settings);
        assert(r@.overmounts =~= spec_default_state().overmounts);
        assert(r@.claims =~= spec_default_state().claims);
        assert(r@.disabled_systemd_timers =~= spec_default_state().disabled_systemd_timers);
        assert(r@ =~= spec_default_state());
    }
    r
}

/// Whether the ledger holds a claim with exactly the value of `c`.
pub fn ledger_contains(state: &DiskState, c: &Claim) -> (r: bool)
    ensures
        r == state@.claims.contains(c@),
{
    let mut i: usize = 0;
    while i < state.claims.len()
        invariant
            i <= state.claims.len(),
            forall|j: int| 0 <= j < i ==> state@.claims[j] != c@,
        decreases state.claims.len() - i,
    {
        if claim_eq(&state.claims[i], c) {
            proof {
                assert(state@.claims[i as int] == state.claims@[i as int]@);
                assert(state@.claims[i as int] == c@);
            }
            return true;
        }
        proof {
            assert(state@.claims[i as int] == state.claims@[i as int]@);
        }
        i = i + 1;
    }
    false
}

/// Records that a timer unit was stopped: appends its name unless it is
/// already recorded.  Nothing else in the document changes.
pub fn record_disabled_timer(state: &mut DiskState, name: &str)
    ensures
        final(state)@.disabled_systemd_timers == (if seq_contains_str(
            old(state)@.disabled_systemd_timers,
            name@,
        ) {
            old(state)@.disabled_systemd_timers
        } else {
            old(state)@.disabled_systemd_timers.push(name@)
        }),
        final(state)@.hogger == old(state)@.hogger,
        final(state)@.overmounts == old(state)@.overmounts,
        final(state)@.claims == old(state)@.claims,
        final(state)@.settings == old(state)@.settings,
{
    if !contains_str(&state.disabled_systemd_timers, name) {
        state.disabled_systemd_timers.push(String::from_str(name));
        proof {
            assert(state@.disabled_systemd_timers =~= old(state)@.disabled_systemd_timers.push(
                name@,
            ));
        }
    }
}

/// The entries of `v` other than `name`, in order.
pub open spec fn spec_without_entry(v: Seq<Seq<char>>, name: Seq<char>) -> Seq<Seq<char>>
    decreases v.len(),
{
    if v.len() == 0 {
        Seq::empty()
    } else {
        let rest = spec_without_entry(v.drop_last(), name);
        if v.last() == name {
            rest
        } else {
            rest.push(v.last())
        }
    }
}

/// Records that a timer unit was started again: drops every entry with that
/// name.  Nothing else in the document changes.
pub fn record_enabled_timer(state: &mut DiskState, name: &str)
    ensures
        final(state)@.disabled_systemd_timers == spec_without_entry(
            old(state)@.disabled_systemd_timers,
            name@,
        ),
        final(state)@.hogger == old(state)@.hogger,
        final(state)@.overmounts == old(state)@.overmounts,
        final(state)@.claims == old(state)@.claims,
        final(state)@.settings == old(state)@.settings,
{
    let ghost dv = state@.disabled_systemd_timers;
    let mut kept: Vec<String> = Vec::new();
    let mut i: usize = 0;
    proof {
        assert(dv.take(0) =~= Seq::<Seq<char>>::empty());
    }
    while i < state.disabled_systemd_timers.len()
        invariant
            i <= state.disabled_systemd_timers.len(),
            dv == state@.disabled_systemd_timers,
            dv.len() == state.disabled_systemd_timers.len(),
            kept.deep_view() == spec_without_entry(dv.take(i as int), name@),
        decreases state.disabled_systemd_timers.len() - i,
    {
        let ghost pre = kept.deep_view();
        proof {
            assert(dv[i as int] == state.disabled_systemd_timers@[i as int]@);
            assert(dv.take(i + 1).drop_last() =~= dv.take(i as int));
            assert(dv.take(i + 1).last() == dv[i as int]);
        }
        if !str_eq(state.disabled_systemd_timers[i].as_str(), name) {
            kept.push(state.disabled_systemd_timers[i].clone());
            proof {
                assert(kept.deep_view() =~= pre.push(dv[i as int]));
            }
        }
        i = i + 1;
    }
    proof {
        assert(dv.take(dv.len() as int) =~= dv);
    }
    state.disabled_systemd_timers = kept;
}

/// One settings template expanded for one account: the first `%h` becomes
/// the home directory, then the first `%u` the login name.  No escape for a
/// literal `%` is recognized.
pub open spec fn spec_expand_template(t: Seq<char>, u: crate::hog::UserView) -> Seq<char> {
    spec_replace_first(spec_replace_first(t, "%h"@, u.home), "%u"@, u.name)
}

/// Every template expanded for one account, in template order.
pub open spec fn spec_user_files(templates: Seq<Seq<char>>, u: crate::hog::UserView) -> Seq<
    Seq<char>,
>
    decreases templates.len(),
{
    if templates.len() == 0 {
        Seq::empty()
    } else {
        spec_user_files(templates.drop_last(), u).push(spec_expand_template(templates.last(), u))
    }
}

/// Every template expanded for every account: accounts outermost, templates
/// innermost, duplicates across accounts kept.
pub open spec fn spec_expand(templates: Seq<Seq<char>>, users: Seq<crate::hog::UserView>) -> Seq<
    Seq<char>,
>
    decreases users.len(),
{
    if users.len() == 0 {
        Seq::empty()
    } else {
        spec_expand(templates, users.drop_last()) + spec_user_files(templates, users.last())
    }
}

/// Expands every settings template against every given account, producing
/// the full candidate list of credential files, account by account.
pub fn expand_authorized_keys_file(settings: &Settings, users: Vec<crate::hog::User>) -> (r: Vec<
    String,
>)
    ensures
        r.deep_view() == spec_expand(settings@, users.deep_view()),
{
    let ghost tdv = settings@;
    let ghost udv = users.deep_view();
    let mut files: Vec<String> = Vec::new();
    let mut ui: usize = 0;
    proof {
        assert(udv.take(0) =~= Seq::<crate::hog::UserView>::empty());
        assert(files.deep_view() =~= spec_expand(tdv, udv.take(0)));
    }
    while ui < users.len()
        invariant
            ui <= users.len(),
            tdv == settings@,
            udv == users.deep_view(),
            udv.len() == users.len(),
            tdv.len() == settings.authorized_keys_file.len(),
            files.deep_view() == spec_expand(tdv, udv.take(ui as int)),
        decreases users.len() - ui,
    {
        let ghost base = files.deep_view();
        proof {
            assert(udv[ui as int] == users@[ui as int]@);
            assert(tdv.take(0) =~= Seq::<Seq<char>>::empty());
            assert(base + spec_user_files(tdv.take(0), udv[ui as int]) =~= base);
        }
        let mut ti: usize = 0;
        while ti < settings.authorized_keys_file.len()
            invariant
                ti <= settings.authorized_keys_file.len(),
                ui < users.len(),
                tdv == settings@,
                udv == users.deep_view(),
                udv.len() == users.len(),
                udv[ui as int] == users@[ui as int]@,
                tdv.len() == settings.authorized_keys_file.len(),
                base == spec_expand(tdv, udv.take(ui as int)),
                files.deep_view() == base + spec_user_files(tdv.take(ti as int), udv[ui as int]),
            decreases settings.authorized_keys_file.len() - ti,
        {
            let ghost pre = files.deep_view();
            proof {
                assert(tdv[ti as int] == settings.authorized_keys_file@[ti as int]@);
                assert(tdv.take(ti + 1).drop_last() =~= tdv.take(ti as int));
                assert(tdv.take(ti + 1).last() == tdv[ti as int]);
            }
            let with_home = crate::strings::replace_first(
                settings.authorized_keys_file[ti].as_str(),
                "%h",
                users[ui].home.as_str(),
            );
            let expanded = crate::strings::replace_first(
                with_home.as_str(),
                "%u",
                users[ui].name.as_str(),
            );
            files.push(expanded);
            proof {
                assert(files.deep_view() =~= pre.push(spec_expand_template(
                    tdv[ti as int],
                    udv[ui as int],
                )));
                assert(files.deep_view() =~= base + spec_user_files(
                    tdv.take(ti + 1),
                    udv[ui as int],
                ));
            }
            ti = ti + 1;
        }
        proof {
            assert(tdv.take(tdv.len() as int) =~= tdv);
            assert(udv.take(ui + 1).drop_last() =~= udv.take(ui as int));
            assert(udv.take(ui + 1).last() == udv[ui as int]);
        }
        ui = ui + 1;
    }
    proof {
        assert(udv.take(udv.len() as int) =~= udv);
    }
    files
}

/// The reconciliation step over the ledger: drops every expired claim, hands
/// back exactly what was dropped, and raises `needs_release` when the claim
/// responsible for the active hogging is among the dropped — the sign that
/// the lockout must be torn down.  `needs_release` is never lowered.
pub fn maintenance(state: &mut DiskState, now: i64, needs_release: &mut bool) -> (removed: Vec<
    Claim,
>)
    ensures
        final(state)@.claims == crate::claims::spec_live_claims(old(state)@.claims, now as int),
        removed.deep_view() == crate::claims::spec_expired_claims(old(state)@.claims, now as int),
        final(state)@.hogger == old(state)@.hogger,
        final(state)@.overmounts == old(state)@.overmounts,
        final(state)@.settings == old(state)@.settings,
        final(state)@.disabled_systemd_timers == old(state)@.disabled_systemd_timers,
        *final(needs_release) == (*old(needs_release) || (old(state)@.hogger matches Some(h)
            && crate::claims::spec_expired_claims(old(state)@.claims, now as int).contains(h))),
{
    let removed = crate::claims::expire(state, now);
    let ghost rdv = removed.deep_view();
    match &state.hogger {
        Some(h) => {
            let mut i: usize = 0;
            while i < removed.len()
                invariant
                    i <= removed.len(),
                    rdv == removed.deep_view(),
                    rdv.len() == removed.len(),
                    old(state)@.hogger == Some(h@),
                    *needs_release == (*old(needs_release) || exists|j: int|
                        0 <= j < i && rdv[j] == h@),
                decreases removed.len() - i,
            {
                proof {
                    assert(rdv[i as int] == removed@[i as int]@);
                }
                if claim_eq(&removed[i], h) {
                    *needs_release = true;
                }
                i = i + 1;
            }
            proof {
                if rdv.contains(h@) {
                    let j = choose|j: int| 0 <= j < rdv.len() && rdv[j] == h@;
                    assert(exists|j: int| 0 <= j < removed.len() && rdv[j] == h@);
                }
            }
        },
        None => {},
    }
    removed
}

} // verus!
