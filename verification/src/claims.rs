//! The claim ledger: creating claims under the exclusivity rule, releasing
//! them, expiring them, and turning a user-supplied timeout expression into
//! an instant.

use vstd::prelude::*;
use vstd::string::StringExecFns;
use crate::diskstate::Claim;
use crate::diskstate::ClaimView;
use crate::diskstate::DiskState;
use crate::diskstate::exclusive_single_user;
use crate::diskstate::opt_instant_view;
use crate::strings::str_eq;

verus! {

/// Why a claim could not be created.
#[derive(Debug, PartialEq, Eq, Structural)]
pub enum ClaimError {
    /// Another user already holds an exclusive claim.
    ExclusiveClaimExists,
}

/// Whether some claim in the ledger is exclusive and belongs to a user other
/// than `me`.
pub open spec fn spec_other_exclusive(claims: Seq<ClaimView>, me: Seq<char>) -> bool {
    exists|i: int| 0 <= i < claims.len() && claims[i].exclusive && claims[i].user != me
}

/// The value of a claim newly created from these arguments.
pub open spec fn spec_new_claim(
    timeout: i64,
    soft_timeout: Option<i64>,
    exclusive: bool,
    user: Seq<char>,
    comment: Seq<char>,
) -> ClaimView {
    ClaimView {
        timeout: timeout as int,
        soft_timeout: opt_instant_view(soft_timeout),
        exclusive: exclusive,
        user: user,
        comment: comment,
    }
}

/// Creates a claim for `me` and appends it to the ledger.
///
/// Fails, leaving the document untouched, exactly when a *different* user
/// already holds an exclusive claim; the same user may stack further claims,
/// exclusive ones included.  The hogger, the overmounts, the settings and the
/// timer record are never touched.
pub fn create_claim(
    state: &mut DiskState,
    me: &str,
    timeout: i64,
    soft_timeout: Option<i64>,
    exclusive: bool,
    comment: String,
) -> (r: Result<Claim, ClaimError>)
    ensures
        r is Err <==> spec_other_exclusive(old(state)@.claims, me@),
        r is Err ==> r == Result::<Claim, ClaimError>::Err(ClaimError::ExclusiveClaimExists)
            && *final(state) == *old(state),
        r matches Ok(c) ==> c@ == spec_new_claim(timeout, soft_timeout, exclusive, me@, comment@)
            && final(state)@.claims == old(state)@.claims.push(c@),
        final(state)@.hogger == old(state)@.hogger,
        final(state)@.overmounts == old(state)@.overmounts,
        final(state)@.settings == old(state)@.settings,
        final(state)@.disabled_systemd_timers == old(state)@.disabled_systemd_timers,
{
    let mut i: usize = 0;
    while i < state.claims.len()
        invariant
            i <= state.claims.len(),
            forall|j: int|
                0 <= j < i ==> !(state@.claims[j].exclusive && state@.claims[j].user != me@),
        decreases state.claims.len() - i,
    {
        proof {
            assert(state@.claims[i as int] == state.claims@[i as int]@);
        }
        if state.claims[i].exclusive && !str_eq(state.claims[i].user.as_str(), me) {
            return Err(ClaimError::ExclusiveClaimExists);
        }
        i = i + 1;
    }
    let c = Claim {
        timeout,
        soft_timeout,
        exclusive,
        user: String::from_str(me),
        comment,
    };
    let ghost pre = state@.claims;
    state.claims.push(c.clone());
    proof {
        assert(state@.claims =~= pre.push(c@));
    }
    Ok(c)
}

/// Creating a claim preserves the exclusivity invariant: when no other user
/// holds an exclusive claim, every exclusive claim after the append still
/// belongs to a single user.
pub proof fn lemma_create_claim_exclusivity(claims: Seq<ClaimView>, c: ClaimView)
    requires
        !spec_other_exclusive(claims, c.user),
    ensures
        exclusive_single_user(claims.push(c)),
{
    let all = claims.push(c);
    assert forall|i: int, j: int|
        #![trigger all[i], all[j]]
        0 <= i < all.len() && 0 <= j < all.len() && all[i].exclusive
            && all[j].exclusive implies all[i].user == all[j].user by {
        if i < claims.len() {
            assert(all[i] == claims[i]);
        }
        if j < claims.len() {
            assert(all[j] == claims[j]);
        }
    }
}

/// The claims not belonging to `user`, in order.
pub open spec fn spec_claims_without_user(claims: Seq<ClaimView>, user: Seq<char>) -> Seq<
    ClaimView,
>
    decreases claims.len(),
{
    if claims.len() == 0 {
        Seq::empty()
    } else {
        let rest = spec_claims_without_user(claims.drop_last(), user);
        if claims.last().user == user {
            rest
        } else {
            rest.push(claims.last())
        }
    }
}

/// Removes every claim belonging to `user`; if the current hogger's claim
/// belongs to `user`, clears the hogger as well.  A call with no matching
/// claims changes nothing.
pub fn release_claims(state: &mut DiskState, user: &str)
    ensures
        final(state)@.claims == spec_claims_without_user(old(state)@.claims, user@),
        final(state)@.hogger == (match old(state)@.hogger {
            Some(h) => if h.user == user@ {
                None
            } else {
                Some(h)
            },
            None => None::<ClaimView>,
        }),
        final(state)@.overmounts == old(state)@.overmounts,
        final(state)@.settings == old(state)@.settings,
        final(state)@.disabled_systemd_timers == old(state)@.disabled_systemd_timers,
{
    let ghost dv = state@.claims;
    let mut kept: Vec<Claim> = Vec::new();
    let mut i: usize = 0;
    proof {
        assert(dv.take(0) =~= Seq::<ClaimView>::empty());
    }
    while i < state.claims.len()
        invariant
            i <= state.claims.len(),
            dv == state@.claims,
            dv.len() == state.claims.len(),
            kept.deep_view() == spec_claims_without_user(dv.take(i as int), user@),
        decreases state.claims.len() - i,
    {
        let ghost pre = kept.deep_view();
        proof {
            assert(state@.claims[i as int] == state.claims@[i as int]@);
            assert(dv.take(i + 1).drop_last() =~= dv.take(i as int));
            assert(dv.take(i + 1).last() == dv[i as int]);
        }
        if !str_eq(state.claims[i].user.as_str(), user) {
            kept.push(state.claims[i].clone());
            proof {
                assert(kept.deep_view() =~= pre.push(dv[i as int]));
            }
        }
        i = i + 1;
    }
    proof {
        assert(dv.take(dv.len() as int) =~= dv);
    }
    state.claims = kept;
    let clear = match &state.hogger {
        Some(h) => str_eq(h.user.as_str(), user),
        None => false,
    };
    if clear {
        state.hogger = None;
    }
}

/// The claims that outlive `now`: exactly those with `timeout > now`, in
/// order.
pub open spec fn spec_live_claims(claims: Seq<ClaimView>, now: int) -> Seq<ClaimView>
    decreases claims.len(),
{
    if claims.len() == 0 {
        Seq::empty()
    } else {
        let rest = spec_live_claims(claims.drop_last(), now);
        if claims.last().timeout > now {
            rest.push(claims.last())
        } else {
            rest
        }
    }
}

/// The claims expired at `now`: exactly those with `timeout <= now`, in
/// order.
pub open spec fn spec_expired_claims(claims: Seq<ClaimView>, now: int) -> Seq<ClaimView>
    decreases claims.len(),
{
    if claims.len() == 0 {
        Seq::empty()
    } else {
        let rest = spec_expired_claims(claims.drop_last(), now);
        if claims.last().timeout <= now {
            rest.push(claims.last())
        } else {
            rest
        }
    }
}

/// Removes every claim whose hard timeout has passed and returns exactly the
/// removed claims, so that a caller can detect that the hogger's claim is
/// among them.
///
/// A claim is removed precisely when `timeout <= now`; all others, soft-
/// timed-out ones included, are kept untouched in order.  Nothing else in
/// the document changes.
pub fn expire(state: &mut DiskState, now: i64) -> (removed: Vec<Claim>)
    ensures
        final(state)@.claims == spec_live_claims(old(state)@.claims, now as int),
        removed.deep_view() == spec_expired_claims(old(state)@.claims, now as int),
        final(state)@.hogger == old(state)@.hogger,
        final(state)@.overmounts == old(state)@.overmounts,
        final(state)@.settings == old(state)@.settings,
        final(state)@.disabled_systemd_timers == old(state)@.disabled_systemd_timers,
{
    let ghost dv = state@.claims;
    let mut kept: Vec<Claim> = Vec::new();
    let mut removed: Vec<Claim> = Vec::new();
    let mut i: usize = 0;
    proof {
        assert(dv.take(0) =~= Seq::<ClaimView>::empty());
    }
    while i < state.claims.len()
        invariant
            i <= state.claims.len(),
            dv == state@.claims,
            dv.len() == state.claims.len(),
            kept.deep_view() == spec_live_claims(dv.take(i as int), now as int),
            removed.deep_view() == spec_expired_claims(dv.take(i as int), now as int),
        decreases state.claims.len() - i,
    {
        let ghost pre_kept = kept.deep_view();
        let ghost pre_removed = removed.deep_view();
        proof {
            assert(state@.claims[i as int] == state.claims@[i as int]@);
            assert(dv.take(i + 1).drop_last() =~= dv.take(i as int));
            assert(dv.take(i + 1).last() == dv[i as int]);
        }
        if state.claims[i].timeout > now {
            kept.push(state.claims[i].clone());
            proof {
                assert(kept.deep_view() =~= pre_kept.push(dv[i as int]));
            }
        } else {
            removed.push(state.claims[i].clone());
            proof {
                assert(removed.deep_view() =~= pre_removed.push(dv[i as int]));
            }
        }
        i = i + 1;
    }
    proof {
        assert(dv.take(dv.len() as int) =~= dv);
    }
    state.claims = kept;
    removed
}

/// Why a timeout expression could not be turned into an instant.
#[derive(Debug, PartialEq, Eq, Structural)]
pub enum TimeoutError {
    /// The expression is a duration that reaches past the representable
    /// instants.
    OutOfRange,
    /// The expression parsed neither as a duration nor as a date.
    Unparseable,
}

/// The whole-second value of `s` read as a relative duration expression, if
/// it is one.
pub uninterp spec fn spec_parsed_duration(s: Seq<char>) -> Option<u64>;

/// Relies on `duration_str::parse`: the parse of a duration expression is a
/// function of the characters alone; the wrapper hands back its value in
/// whole seconds.
#[verifier::external_body]
fn parse_duration_secs(s: &str) -> (r: Option<u64>)
    ensures
        r == spec_parsed_duration(s@),
{
    match duration_str::parse(s) {
        Ok(d) => Some(d.as_secs()),
        Err(_) => None,
    }
}

/// Relies on `dateparser::parse`: the instant read from a date expression
/// may depend on the current date and the local time zone, so nothing is
/// assumed of the value handed back.
#[verifier::external_body]
fn parse_date_epoch(s: &str) -> (r: Option<i64>) {
    match dateparser::parse(s) {
        Ok(t) => Some(t.timestamp()),
        Err(_) => None,
    }
}

/// Turns a user-supplied timeout expression into an absolute instant, in
/// epoch seconds.
///
/// The expression is first read as a relative duration ("2h30m") against
/// `now`; one that is no duration falls through to date parsing, whose
/// failure is the only unparseable case.
pub fn parse_timeout(timeout: &str, now: i64) -> (r: Result<i64, TimeoutError>)
    ensures
        spec_parsed_duration(timeout@) matches Some(d) ==> (if d <= i64::MAX && now + d
            <= i64::MAX {
            r == Result::<i64, TimeoutError>::Ok((now + d) as i64)
        } else {
            r == Result::<i64, TimeoutError>::Err(TimeoutError::OutOfRange)
        }),
        r == Result::<i64, TimeoutError>::Err(TimeoutError::Unparseable) ==> spec_parsed_duration(
            timeout@,
        ) is None,
{
    match parse_duration_secs(timeout) {
        Some(d) => {
            if d <= i64::MAX as u64 && now <= i64::MAX - (d as i64) {
                Ok(now + (d as i64))
            } else {
                Err(TimeoutError::OutOfRange)
            }
        },
        None => match parse_date_epoch(timeout) {
            Some(t) => Ok(t),
            None => Err(TimeoutError::Unparseable),
        },
    }
}

} // verus!
