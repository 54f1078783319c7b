//! Duration formatting for status display, and small helpers shared by the
//! other modules.

use vstd::prelude::*;
use vstd::string::StringExecFns;
use crate::diskstate::Claim;
use crate::diskstate::ClaimView;
use crate::strings::append_padded;
use crate::strings::push_dec_u64;
use crate::strings::spec_dec_nat;
use crate::strings::spec_pad;

verus! {

/// How `Seq::filter` acts on a sequence extended by one element.
pub proof fn lemma_filter_push<A>(s: Seq<A>, x: A, pred: spec_fn(A) -> bool)
    ensures
        s.push(x).filter(pred) == (if pred(x) {
            s.filter(pred).push(x)
        } else {
            s.filter(pred)
        }),
{
    reveal(Seq::filter);
    assert(s.push(x).drop_last() =~= s);
    assert(s.push(x).last() == x);
}

/// The decimal rendering of an integer, a minus sign first when it is
/// negative.
pub open spec fn spec_dec_int(n: int) -> Seq<char> {
    if n < 0 {
        "-"@ + spec_dec_nat((-n) as nat)
    } else {
        spec_dec_nat(n as nat)
    }
}

/// A duration of `secs` seconds rendered in its largest fitting unit: whole
/// seconds below a minute, else whole minutes below an hour, else whole
/// hours below a day, else whole days below a week, else whole weeks.
pub open spec fn spec_format_timeout(secs: int) -> Seq<char> {
    if secs < 60 {
        spec_dec_int(secs) + "s"@
    } else if secs / 60 < 60 {
        spec_dec_nat((secs / 60) as nat) + "m"@
    } else if secs / 3600 < 24 {
        spec_dec_nat((secs / 3600) as nat) + "h"@
    } else if secs / 86400 < 7 {
        spec_dec_nat((secs / 86400) as nat) + "d"@
    } else {
        spec_dec_nat((secs / 604800) as nat) + "w"@
    }
}

/// Renders a duration of `secs` seconds for status display.
pub fn format_timeout(secs: i64) -> (r: String)
    requires
        secs > i64::MIN,
    ensures
        r@ == spec_format_timeout(secs as int),
{
    let mut r = String::new();
    if secs < 60 {
        if secs < 0 {
            r.append("-");
            push_dec_u64(&mut r, (-secs) as u64);
        } else {
            push_dec_u64(&mut r, secs as u64);
        }
        r.append("s");
        proof {
            assert(r@ =~= spec_format_timeout(secs as int));
        }
        return r;
    }
    let s = secs as u64;
    let mins = s / 60;
    if mins < 60 {
        push_dec_u64(&mut r, mins);
        r.append("m");
        proof {
            assert(r@ =~= spec_format_timeout(secs as int));
        }
        return r;
    }
    let hours = s / 3600;
    if hours < 24 {
        push_dec_u64(&mut r, hours);
        r.append("h");
        proof {
            assert(r@ =~= spec_format_timeout(secs as int));
        }
        return r;
    }
    let days = s / 86400;
    if days < 7 {
        push_dec_u64(&mut r, days);
        r.append("d");
        proof {
            assert(r@ =~= spec_format_timeout(secs as int));
        }
        return r;
    }
    let weeks = s / 604800;
    push_dec_u64(&mut r, weeks);
    r.append("w");
    proof {
        assert(r@ =~= spec_format_timeout(secs as int));
    }
    r
}

/// Renders the time remaining until the absolute instant `timeout`.
pub fn format_timeout_abs(timeout: i64, now: i64) -> (r: String)
    requires
        i64::MIN < timeout - now <= i64::MAX,
    ensures
        r@ == spec_format_timeout(timeout - now),
{
    let d = timeout - now;
    format_timeout(d)
}

/// One status-display row for a claim: the remaining time (the soft timeout
/// when one is set) and the user, each padded to a column of thirteen, then
/// the comment, marked when the claim is exclusive.
pub open spec fn spec_claim_row(c: ClaimView, now: int) -> Seq<char> {
    let dur = match c.soft_timeout {
        Some(st) => spec_format_timeout(st - now) + " (soft)"@,
        None => spec_format_timeout(c.timeout - now),
    };
    let comment = if c.exclusive {
        "(exclusive) "@ + c.comment
    } else {
        c.comment
    };
    spec_pad(dur, 13) + " "@ + spec_pad(c.user, 13) + " "@ + comment
}

/// Renders one status row for `claim` as of `now`.
pub fn format_claim_row(claim: &Claim, now: i64) -> (r: String)
    requires
        i64::MIN < claim@.timeout - now <= i64::MAX,
        claim@.soft_timeout matches Some(st) ==> i64::MIN < st - now <= i64::MAX,
    ensures
        r@ == spec_claim_row(claim@, now as int),
{
    let dur: String = match claim.soft_timeout {
        Some(st) => {
            let mut d = format_timeout_abs(st, now);
            d.append(" (soft)");
            d
        },
        None => format_timeout_abs(claim.timeout, now),
    };
    let mut r = String::new();
    append_padded(&mut r, dur.as_str(), 13);
    r.append(" ");
    append_padded(&mut r, claim.user.as_str(), 13);
    r.append(" ");
    if claim.exclusive {
        r.append("(exclusive) ");
    }
    r.append(claim.comment.as_str());
    proof {
        assert(r@ =~= spec_claim_row(claim@, now as int));
    }
    r
}

/// The number of true entries.
pub open spec fn spec_count_true(v: Seq<bool>) -> int
    decreases v.len(),
{
    if v.len() == 0 {
        0
    } else {
        spec_count_true(v.drop_last()) + if v.last() {
            1int
        } else {
            0int
        }
    }
}

/// Counts the true entries, as the status display counts which recorded
/// overmounts the kernel still shows mounted.
pub fn count_true(v: &Vec<bool>) -> (r: usize)
    ensures
        r == spec_count_true(v@),
{
    let mut r: usize = 0;
    let mut i: usize = 0;
    proof {
        assert(v@.take(0) =~= Seq::<bool>::empty());
    }
    while i < v.len()
        invariant
            i <= v.len(),
            r <= i,
            r == spec_count_true(v@.take(i as int)),
        decreases v.len() - i,
    {
        proof {
            assert(v@.take(i + 1).drop_last() =~= v@.take(i as int));
            assert(v@.take(i + 1).last() == v@[i as int]);
        }
        if v[i] {
            r = r + 1;
        }
        i = i + 1;
    }
    proof {
        assert(v@.take(v@.len() as int) =~= v@);
    }
    r
}

/// The instant one minute and a second past `timeout`: a deferred run
/// scheduled by whole minutes must land in the minute after the expiry.
pub fn next_minute(timeout: i64) -> (r: i64)
    requires
        timeout + 61 <= i64::MAX,
    ensures
        r == timeout + 61,
{
    timeout + 61
}

} // verus!
