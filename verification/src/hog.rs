//! The SSH lockout mechanism and the hog/release transitions: which
//! credential files to shadow, what the rewritten files and the banner hold,
//! and how the recorded overmounts and the hogger change with each step.

use vstd::prelude::*;
use vstd::string::StrSliceExecFns;
use vstd::string::StringExecFns;
use crate::diskstate::Claim;
use crate::diskstate::ClaimView;
use crate::diskstate::DiskState;
use crate::diskstate::claim_eq;
use crate::strings::push_char;
use crate::strings::split_lines;
use crate::strings::join_strs;
use crate::strings::spec_join;
use crate::strings::spec_lines;
use crate::strings::str_eq;
use crate::strings::contains_str;
use crate::strings::seq_contains_str;
use crate::util::spec_format_timeout;
use crate::util::format_timeout_abs;
use crate::util::lemma_filter_push;

verus! {

/// A local account, as the system account database lists it.
pub struct User {
    /// Login name.
    pub name: String,
    /// Home directory.
    pub home: String,
}

/// The mathematical value of a [`User`].
#[verifier::ext_equal]
pub struct UserView {
    pub name: Seq<char>,
    pub home: Seq<char>,
}

impl View for User {
    type V = UserView;

    open spec fn view(&self) -> UserView {
        UserView { name: self.name@, home: self.home@ }
    }
}

impl DeepView for User {
    type V = UserView;

    open spec fn deep_view(&self) -> UserView {
        self.view()
    }
}

/// How one character of a shadowed path is written into an overlay file
/// name: `/` becomes `_`, and a literal `_` is doubled so that distinct
/// paths keep distinct overlay names.
pub open spec fn spec_escape_char(c: char) -> Seq<char> {
    if c == '/' {
        seq!['_']
    } else if c == '_' {
        seq!['_', '_']
    } else {
        seq![c]
    }
}

/// A path written as a single filesystem-safe file name.
pub open spec fn spec_escape(s: Seq<char>) -> Seq<char>
    decreases s.len(),
{
    if s.len() == 0 {
        Seq::empty()
    } else {
        spec_escape(s.drop_last()) + spec_escape_char(s.last())
    }
}

/// Writes a path as a single filesystem-safe file name.
pub fn escape(input: &str) -> (r: String)
    ensures
        r@ == spec_escape(input@),
{
    let n = input.unicode_len();
    let mut r = String::new();
    let mut i: usize = 0;
    proof {
        assert(input@.take(0) =~= Seq::<char>::empty());
        assert(r@ =~= spec_escape(input@.take(0)));
    }
    while i < n
        invariant
            n == input@.len(),
            i <= n,
            r@ == spec_escape(input@.take(i as int)),
        decreases n - i,
    {
        let ghost pre = r@;
        let c = input.get_char(i);
        if c == '/' {
            push_char(&mut r, '_');
            proof {
                assert(r@ =~= pre + spec_escape_char(input@[i as int]));
            }
        } else if c == '_' {
            push_char(&mut r, '_');
            push_char(&mut r, '_');
            proof {
                assert(r@ =~= pre + spec_escape_char(input@[i as int]));
            }
        } else {
            push_char(&mut r, c);
            proof {
                assert(r@ =~= pre + spec_escape_char(input@[i as int]));
            }
        }
        proof {
            assert(input@.take(i + 1).drop_last() =~= input@.take(i as int));
            assert(input@.take(i + 1).last() == input@[i as int]);
        }
        i = i + 1;
    }
    proof {
        assert(input@.take(n as int) =~= input@);
    }
    r
}

/// The overlay file a shadowed path is rewritten into, under the dedicated
/// overlay directory.
pub open spec fn spec_overlay_file_name(f: Seq<char>) -> Seq<char> {
    "/var/lib/hosthog/overlay/"@ + spec_escape(f)
}

/// Names the overlay file for a shadowed path.
pub fn overlay_file_name(file: &str) -> (r: String)
    ensures
        r@ == spec_overlay_file_name(file@),
{
    let mut r = String::from_str("/var/lib/hosthog/overlay/");
    let e = escape(file);
    r.append(e.as_str());
    r
}

/// The banner shown to a user whose SSH login is intercepted while the host
/// is hogged under claim `c`.
pub open spec fn spec_hogged_message(c: ClaimView, now: int) -> Seq<char> {
    "This system has been hogged by "@ + c.user + ".\nComment: "@ + c.comment
        + "\nThis claim will time out in "@ + spec_format_timeout(c.timeout - now) + "."@
}

/// Renders the lockout banner for the claim `claim` as of `now`.
pub fn ssh_hogged_message(claim: &Claim, now: i64) -> (r: String)
    requires
        i64::MIN < claim@.timeout - now <= i64::MAX,
    ensures
        r@ == spec_hogged_message(claim@, now as int),
{
    let mut r = String::from_str("This system has been hogged by ");
    r.append(claim.user.as_str());
    r.append(".\nComment: ");
    r.append(claim.comment.as_str());
    r.append("\nThis claim will time out in ");
    let d = format_timeout_abs(claim.timeout, now);
    r.append(d.as_str());
    r.append(".");
    proof {
        assert(r@ =~= spec_hogged_message(claim@, now as int));
    }
    r
}

/// One banner line turned into a shell `echo`.
pub open spec fn spec_echo_line(l: Seq<char>) -> Seq<char> {
    "echo "@ + l
}

/// The forced command that prints every banner line: one `echo` per line,
/// joined with `; `.
pub open spec fn spec_hogged_command(m: Seq<char>) -> Seq<char> {
    spec_join(spec_lines(m).map_values(|l: Seq<char>| spec_echo_line(l)), "; "@)
}

/// Builds the forced command that prints the banner `message`.
pub fn ssh_hogged_command(message: &str) -> (r: String)
    ensures
        r@ == spec_hogged_command(message@),
{
    let lines = split_lines(message);
    let mut parts: Vec<String> = Vec::new();
    let mut i: usize = 0;
    while i < lines.len()
        invariant
            i <= lines.len(),
            parts.deep_view().len() == i,
            forall|j: int|
                0 <= j < i ==> parts.deep_view()[j] == spec_echo_line(lines.deep_view()[j]),
        decreases lines.len() - i,
    {
        let ghost pre = parts.deep_view();
        let mut p = String::from_str("echo ");
        p.append(lines[i].as_str());
        proof {
            assert(lines.deep_view()[i as int] == lines@[i as int]@);
        }
        parts.push(p);
        proof {
            assert(parts.deep_view() =~= pre.push(spec_echo_line(lines.deep_view()[i as int])));
        }
        i = i + 1;
    }
    proof {
        assert(parts.deep_view() =~= spec_lines(message@).map_values(
            |l: Seq<char>| spec_echo_line(l),
        ));
    }
    join_strs(&parts, "; ")
}

/// One line of a shadowed credential file as the overlay rewrites it: a
/// non-empty line is prefixed with a restriction and the forced banner
/// command, an empty line stays empty.
pub open spec fn spec_overlay_line(l: Seq<char>, m: Seq<char>) -> Seq<char> {
    if l.len() == 0 {
        l
    } else {
        "restrict,command=\""@ + spec_hogged_command(m) + "\" "@ + l
    }
}

/// The whole rewritten credential file for original content `o` and banner
/// `m`: every line rewritten, joined with newlines.
pub open spec fn spec_overlay_content(o: Seq<char>, m: Seq<char>) -> Seq<char> {
    spec_join(spec_lines(o).map_values(|l: Seq<char>| spec_overlay_line(l, m)), "\n"@)
}

/// Rewrites the content of a credential file so that every listed key runs
/// the banner command instead of opening a session.
pub fn overlay_content(original: &str, message: &str) -> (r: String)
    ensures
        r@ == spec_overlay_content(original@, message@),
{
    let cmd = ssh_hogged_command(message);
    let lines = split_lines(original);
    let mut parts: Vec<String> = Vec::new();
    let mut i: usize = 0;
    while i < lines.len()
        invariant
            i <= lines.len(),
            cmd@ == spec_hogged_command(message@),
            parts.deep_view().len() == i,
            forall|j: int|
                0 <= j < i ==> parts.deep_view()[j] == spec_overlay_line(
                    lines.deep_view()[j],
                    message@,
                ),
        decreases lines.len() - i,
    {
        let ghost pre = parts.deep_view();
        proof {
            assert(lines.deep_view()[i as int] == lines@[i as int]@);
        }
        let p: String = if lines[i].as_str().is_empty() {
            lines[i].clone()
        } else {
            let mut p = String::from_str("restrict,command=\"");
            p.append(cmd.as_str());
            p.append("\" ");
            p.append(lines[i].as_str());
            p
        };
        parts.push(p);
        proof {
            assert(parts.deep_view() =~= pre.push(spec_overlay_line(
                lines.deep_view()[i as int],
                message@,
            )));
        }
        i = i + 1;
    }
    proof {
        assert(parts.deep_view() =~= spec_lines(original@).map_values(
            |l: Seq<char>| spec_overlay_line(l, message@),
        ));
    }
    join_strs(&parts, "\n")
}

/// Why the host could not be hogged.
#[derive(Debug)]
pub enum HogError {
    /// The caller holds no exclusive claim.
    NoExclusiveClaim,
    /// The host is already hogged by the named other user.
    AlreadyHogged(String),
}

/// The position of the first claim at or after `from` that is exclusive and
/// belongs to `me`.
pub open spec fn spec_find_my_exclusive(claims: Seq<ClaimView>, me: Seq<char>, from: int) -> Option<
    int,
>
    decreases claims.len() - from + 1,
{
    if from < 0 || from >= claims.len() {
        None
    } else if claims[from].user == me && claims[from].exclusive {
        Some(from)
    } else {
        spec_find_my_exclusive(claims, me, from + 1)
    }
}

proof fn lemma_find_my_exclusive_some(claims: Seq<ClaimView>, me: Seq<char>, from: int, i: int)
    requires
        0 <= from <= i < claims.len(),
        claims[i].user == me && claims[i].exclusive,
        forall|k: int| from <= k < i ==> !(claims[k].user == me && claims[k].exclusive),
    ensures
        spec_find_my_exclusive(claims, me, from) == Some(i),
    decreases i - from,
{
    if from < i {
        lemma_find_my_exclusive_some(claims, me, from + 1, i);
    }
}

proof fn lemma_find_my_exclusive_none(claims: Seq<ClaimView>, me: Seq<char>, from: int)
    requires
        0 <= from,
        forall|k: int| from <= k < claims.len() ==> !(claims[k].user == me && claims[k].exclusive),
    ensures
        spec_find_my_exclusive(claims, me, from) is None,
    decreases claims.len() - from + 1,
{
    if from < claims.len() {
        lemma_find_my_exclusive_none(claims, me, from + 1);
    }
}

/// Whether the host is hogged under a claim of a user other than `me`.
pub open spec fn spec_hogged_by_other(hogger: Option<ClaimView>, me: Seq<char>) -> bool {
    match hogger {
        Some(h) => h.user != me,
        None => false,
    }
}

/// Decides whether `me` may hog the host, and under which claim.
///
/// Hogging is allowed only to a caller holding an exclusive claim, and only
/// while the host is not already hogged by a different user; the first of
/// the caller's exclusive claims is the one the lockout is charged to.  The
/// document is read, never changed: a refusal touches neither the recorded
/// overmounts nor the hogger.
pub fn find_hog_claim(state: &DiskState, me: &str) -> (r: Result<Claim, HogError>)
    ensures
        (r matches Err(e) && e is NoExclusiveClaim) <==> spec_find_my_exclusive(
            state@.claims,
            me@,
            0,
        ) is None,
        spec_find_my_exclusive(state@.claims, me@, 0) matches Some(i) ==> (if spec_hogged_by_other(
            state@.hogger,
            me@,
        ) {
            r matches Err(e) && e matches HogError::AlreadyHogged(u) && u@
                == state@.hogger->0.user
        } else {
            r matches Ok(c) && c@ == state@.claims[i]
        }),
{
    let ghost dv = state@.claims;
    let mut i: usize = 0;
    while i < state.claims.len()
        invariant
            i <= state.claims.len(),
            dv == state@.claims,
            dv.len() == state.claims.len(),
            forall|k: int| 0 <= k < i ==> !(dv[k].user == me@ && dv[k].exclusive),
        decreases state.claims.len() - i,
    {
        proof {
            assert(state@.claims[i as int] == state.claims@[i as int]@);
        }
        if state.claims[i].exclusive && str_eq(state.claims[i].user.as_str(), me) {
            proof {
                lemma_find_my_exclusive_some(dv, me@, 0, i as int);
            }
            match &state.hogger {
                Some(h) => {
                    if !str_eq(h.user.as_str(), me) {
                        return Err(HogError::AlreadyHogged(h.user.clone()));
                    }
                },
                None => {},
            }
            return Ok(state.claims[i].clone());
        }
        i = i + 1;
    }
    proof {
        lemma_find_my_exclusive_none(dv, me@, 0);
    }
    Err(HogError::NoExclusiveClaim)
}

/// A caller without an exclusive claim is always refused: with no claim of
/// `me` marked exclusive in the ledger, the hog decision can only be the
/// refusal, and [`find_hog_claim`] leaves the document untouched by type.
pub proof fn lemma_hog_denied_without_exclusive(claims: Seq<ClaimView>, me: Seq<char>)
    requires
        forall|i: int| 0 <= i < claims.len() ==> !(claims[i].user == me && claims[i].exclusive),
    ensures
        spec_find_my_exclusive(claims, me, 0) is None,
{
    lemma_find_my_exclusive_none(claims, me, 0);
}

/// The target user set of a hogging: what was asked for, or root and the
/// caller when nothing was.
pub fn default_hog_users(users: Vec<String>, me: &str) -> (r: Vec<String>)
    ensures
        r.deep_view() == (if old_users_empty(users.deep_view()) {
            seq!["root"@, me@]
        } else {
            users.deep_view()
        }),
{
    let mut users = users;
    if users.len() == 0 {
        users.push(String::from_str("root"));
        users.push(String::from_str(me));
        proof {
            assert(users.deep_view() =~= seq!["root"@, me@]);
        }
    }
    users
}

/// Whether the requested user list was empty.
pub open spec fn old_users_empty(users: Seq<Seq<char>>) -> bool {
    users.len() == 0
}

/// The accounts that stay locked out: every account whose name is not in the
/// excluded set.
pub fn filter_excluded_users(users: Vec<User>, exclude: &Vec<String>) -> (r: Vec<User>)
    ensures
        r.deep_view() == users.deep_view().filter(
            |u: UserView| !seq_contains_str(exclude.deep_view(), u.name),
        ),
{
    let ghost dv = users.deep_view();
    let ghost pred = |u: UserView| !seq_contains_str(exclude.deep_view(), u.name);
    let mut kept: Vec<User> = Vec::new();
    let mut i: usize = 0;
    proof {
        assert(dv.take(0) =~= Seq::<UserView>::empty());
        assert(Seq::<UserView>::empty().filter(pred) =~= Seq::<UserView>::empty()) by {
            reveal(Seq::filter);
        }
    }
    while i < users.len()
        invariant
            i <= users.len(),
            dv == users.deep_view(),
            dv.len() == users.len(),
            kept.deep_view() == dv.take(i as int).filter(pred),
            pred == (|u: UserView| !seq_contains_str(exclude.deep_view(), u.name)),
        decreases users.len() - i,
    {
        let ghost pre = kept.deep_view();
        proof {
            assert(dv[i as int] == users@[i as int]@);
        }
        if !contains_str(exclude, users[i].name.as_str()) {
            let u = User { name: users[i].name.clone(), home: users[i].home.clone() };
            proof {
                assert(u@ =~= dv[i as int]);
            }
            kept.push(u);
            proof {
                assert(kept.deep_view() =~= pre.push(dv[i as int]));
            }
        }
        proof {
            lemma_filter_push(dv.take(i as int), dv[i as int], pred);
            assert(dv.take(i + 1) =~= dv.take(i as int).push(dv[i as int]));
        }
        i = i + 1;
    }
    proof {
        assert(dv.take(dv.len() as int) =~= dv);
    }
    kept
}

/// What a single lockout mount attempt came to.
#[derive(Clone, Copy, Debug, PartialEq, Eq, Structural)]
pub enum MountOutcome {
    /// The overlay was bind-mounted; the path is now shadowed.
    Mounted,
    /// The original file does not exist; accounts churn, so nothing was
    /// attempted and this is no error.
    Missing,
    /// The mount failed; the path is not shadowed.
    Failed,
}

/// The candidate files an engage pass actually attempts: those neither
/// already recorded as overmounted nor independently shown mounted by the
/// kernel.
pub open spec fn spec_plan_engage(
    c: Seq<Seq<char>>,
    over: Seq<Seq<char>>,
    k: Seq<bool>,
) -> Seq<Seq<char>>
    decreases c.len(),
{
    if c.len() == 0 {
        Seq::empty()
    } else {
        let rest = spec_plan_engage(c.drop_last(), over, k.drop_last());
        if seq_contains_str(over, c.last()) || k.last() {
            rest
        } else {
            rest.push(c.last())
        }
    }
}

/// Selects, in order, the candidate files to attempt: a candidate already
/// recorded in `overmounts`, or one the kernel mount table already shows
/// mounted (`kernel_mounted` answers that per candidate), is skipped.
pub fn plan_engage(
    candidates: &Vec<String>,
    overmounts: &Vec<String>,
    kernel_mounted: &Vec<bool>,
) -> (r: Vec<String>)
    requires
        kernel_mounted@.len() == candidates@.len(),
    ensures
        r.deep_view() == spec_plan_engage(
            candidates.deep_view(),
            overmounts.deep_view(),
            kernel_mounted@,
        ),
{
    let ghost cdv = candidates.deep_view();
    let ghost odv = overmounts.deep_view();
    let ghost k = kernel_mounted@;
    let mut r: Vec<String> = Vec::new();
    let mut i: usize = 0;
    proof {
        assert(cdv.take(0) =~= Seq::<Seq<char>>::empty());
        assert(k.take(0) =~= Seq::<bool>::empty());
    }
    while i < candidates.len()
        invariant
            i <= candidates.len(),
            cdv == candidates.deep_view(),
            odv == overmounts.deep_view(),
            k == kernel_mounted@,
            cdv.len() == candidates.len(),
            k.len() == cdv.len(),
            r.deep_view() == spec_plan_engage(cdv.take(i as int), odv, k.take(i as int)),
        decreases candidates.len() - i,
    {
        let ghost pre = r.deep_view();
        proof {
            assert(cdv[i as int] == candidates@[i as int]@);
        }
        if !contains_str(overmounts, candidates[i].as_str()) && !kernel_mounted[i] {
            r.push(candidates[i].clone());
            proof {
                assert(r.deep_view() =~= pre.push(cdv[i as int]));
            }
        }
        proof {
            assert(cdv.take(i + 1).drop_last() =~= cdv.take(i as int));
            assert(k.take(i + 1).drop_last() =~= k.take(i as int));
            assert(cdv.take(i + 1).last() == cdv[i as int]);
            assert(k.take(i + 1).last() == k[i as int]);
        }
        i = i + 1;
    }
    proof {
        assert(cdv.take(cdv.len() as int) =~= cdv);
        assert(k.take(k.len() as int) =~= k);
    }
    r
}

/// The attempted files whose mount succeeded, in order.
pub open spec fn spec_mounted_files(a: Seq<Seq<char>>, o: Seq<MountOutcome>) -> Seq<Seq<char>>
    decreases a.len(),
{
    if a.len() == 0 {
        Seq::empty()
    } else {
        let rest = spec_mounted_files(a.drop_last(), o.drop_last());
        if o.last() is Mounted {
            rest.push(a.last())
        } else {
            rest
        }
    }
}

/// How many attempts failed outright.
pub open spec fn spec_count_failed(o: Seq<MountOutcome>) -> int
    decreases o.len(),
{
    if o.len() == 0 {
        0
    } else {
        spec_count_failed(o.drop_last()) + if o.last() is Failed {
            1int
        } else {
            0int
        }
    }
}

/// Records the outcome of an engage pass: every successfully mounted file is
/// appended to the recorded overmounts, in order; missing originals are
/// passed over; the count of failed mounts is handed back.  A failure never
/// aborts the pass, and nothing else in the document changes.
pub fn record_engage(
    state: &mut DiskState,
    attempted: &Vec<String>,
    outcomes: &Vec<MountOutcome>,
) -> (failed: usize)
    requires
        outcomes@.len() == attempted@.len(),
    ensures
        final(state)@.overmounts == old(state)@.overmounts + spec_mounted_files(
            attempted.deep_view(),
            outcomes@,
        ),
        failed == spec_count_failed(outcomes@),
        final(state)@.hogger == old(state)@.hogger,
        final(state)@.claims == old(state)@.claims,
        final(state)@.settings == old(state)@.settings,
        final(state)@.disabled_systemd_timers == old(state)@.disabled_systemd_timers,
{
    let ghost adv = attempted.deep_view();
    let ghost o = outcomes@;
    let mut failed: usize = 0;
    let mut i: usize = 0;
    proof {
        assert(adv.take(0) =~= Seq::<Seq<char>>::empty());
        assert(o.take(0) =~= Seq::<MountOutcome>::empty());
        assert(old(state)@.overmounts + spec_mounted_files(adv.take(0), o.take(0)) =~= old(
            state,
        )@.overmounts);
    }
    while i < attempted.len()
        invariant
            i <= attempted.len(),
            adv == attempted.deep_view(),
            o == outcomes@,
            adv.len() == attempted.len(),
            o.len() == adv.len(),
            failed <= i,
            failed == spec_count_failed(o.take(i as int)),
            state@.overmounts == old(state)@.overmounts + spec_mounted_files(
                adv.take(i as int),
                o.take(i as int),
            ),
            state@.hogger == old(state)@.hogger,
            state@.claims == old(state)@.claims,
            state@.settings == old(state)@.settings,
            state@.disabled_systemd_timers == old(state)@.disabled_systemd_timers,
        decreases attempted.len() - i,
    {
        let ghost pre = state@.overmounts;
        proof {
            assert(adv[i as int] == attempted@[i as int]@);
            assert(adv.take(i + 1).drop_last() =~= adv.take(i as int));
            assert(o.take(i + 1).drop_last() =~= o.take(i as int));
            assert(adv.take(i + 1).last() == adv[i as int]);
            assert(o.take(i + 1).last() == o[i as int]);
        }
        match outcomes[i] {
            MountOutcome::Mounted => {
                state.overmounts.push(attempted[i].clone());
                proof {
                    assert(state@.overmounts =~= pre.push(adv[i as int]));
                }
            },
            MountOutcome::Missing => {},
            MountOutcome::Failed => {
                failed = failed + 1;
            },
        }
        i = i + 1;
    }
    proof {
        assert(adv.take(adv.len() as int) =~= adv);
        assert(o.take(o.len() as int) =~= o);
    }
    failed
}

/// The recorded overmounts that survive a disengage pass: exactly those
/// whose unmount failed, in order.
pub open spec fn spec_failed_overmounts(over: Seq<Seq<char>>, ok: Seq<bool>) -> Seq<Seq<char>>
    decreases over.len(),
{
    if over.len() == 0 {
        Seq::empty()
    } else {
        let rest = spec_failed_overmounts(over.drop_last(), ok.drop_last());
        if ok.last() {
            rest
        } else {
            rest.push(over.last())
        }
    }
}

/// Records the outcome of a disengage pass over the recorded overmounts:
/// every path whose unmount succeeded is dropped, every path whose unmount
/// failed is retained for the next pass.  Nothing else in the document
/// changes.
pub fn record_disengage(state: &mut DiskState, unmount_ok: &Vec<bool>)
    requires
        unmount_ok@.len() == old(state)@.overmounts.len(),
    ensures
        final(state)@.overmounts == spec_failed_overmounts(old(state)@.overmounts, unmount_ok@),
        final(state)@.hogger == old(state)@.hogger,
        final(state)@.claims == old(state)@.claims,
        final(state)@.settings == old(state)@.settings,
        final(state)@.disabled_systemd_timers == old(state)@.disabled_systemd_timers,
{
    let ghost odv = state@.overmounts;
    let ghost ok = unmount_ok@;
    let mut kept: Vec<String> = Vec::new();
    let mut i: usize = 0;
    proof {
        assert(odv.take(0) =~= Seq::<Seq<char>>::empty());
        assert(ok.take(0) =~= Seq::<bool>::empty());
    }
    while i < state.overmounts.len()
        invariant
            i <= state.overmounts.len(),
            odv == state@.overmounts,
            ok == unmount_ok@,
            odv.len() == state.overmounts.len(),
            ok.len() == odv.len(),
            kept.deep_view() == spec_failed_overmounts(odv.take(i as int), ok.take(i as int)),
        decreases state.overmounts.len() - i,
    {
        let ghost pre = kept.deep_view();
        proof {
            assert(odv[i as int] == state.overmounts@[i as int]@);
            assert(odv.take(i + 1).drop_last() =~= odv.take(i as int));
            assert(ok.take(i + 1).drop_last() =~= ok.take(i as int));
            assert(odv.take(i + 1).last() == odv[i as int]);
            assert(ok.take(i + 1).last() == ok[i as int]);
        }
        if !unmount_ok[i] {
            kept.push(state.overmounts[i].clone());
            proof {
                assert(kept.deep_view() =~= pre.push(odv[i as int]));
            }
        }
        i = i + 1;
    }
    proof {
        assert(odv.take(odv.len() as int) =~= odv);
        assert(ok.take(ok.len() as int) =~= ok);
    }
    state.overmounts = kept;
}

/// Marks `claim` as the one responsible for the active lockout.  The claim
/// must stand in the ledger at this moment, as the document invariant asks.
pub fn set_hogger(state: &mut DiskState, claim: Claim)
    requires
        old(state)@.claims.contains(claim@),
    ensures
        final(state)@.hogger == Some(claim@),
        final(state)@.overmounts == old(state)@.overmounts,
        final(state)@.claims == old(state)@.claims,
        final(state)@.settings == old(state)@.settings,
        final(state)@.disabled_systemd_timers == old(state)@.disabled_systemd_timers,
{
    state.hogger = Some(claim);
}

/// The claims whose value differs from `h`, in order.
pub open spec fn spec_remove_claim(claims: Seq<ClaimView>, h: ClaimView) -> Seq<ClaimView>
    decreases claims.len(),
{
    if claims.len() == 0 {
        Seq::empty()
    } else {
        let rest = spec_remove_claim(claims.drop_last(), h);
        if claims.last() == h {
            rest
        } else {
            rest.push(claims.last())
        }
    }
}

/// The ledger after the hogger's claim, if any, is struck from it.
pub open spec fn spec_strike_hogger(
    claims: Seq<ClaimView>,
    hogger: Option<ClaimView>,
) -> Seq<ClaimView> {
    match hogger {
        Some(h) => spec_remove_claim(claims, h),
        None => claims,
    }
}

/// The claims that are not exclusive claims of `me`, in order.
pub open spec fn spec_drop_my_exclusive(claims: Seq<ClaimView>, me: Seq<char>) -> Seq<ClaimView>
    decreases claims.len(),
{
    if claims.len() == 0 {
        Seq::empty()
    } else {
        let rest = spec_drop_my_exclusive(claims.drop_last(), me);
        if claims.last().user == me && claims.last().exclusive {
            rest
        } else {
            rest.push(claims.last())
        }
    }
}

/// The whole document after a release by `me` whose unmount attempts came
/// out as `ok`.
pub open spec fn spec_do_release(s: crate::diskstate::DiskStateView, me: Seq<char>, ok: Seq<bool>)
    -> crate::diskstate::DiskStateView {
    crate::diskstate::DiskStateView {
        hogger: None,
        overmounts: spec_failed_overmounts(s.overmounts, ok),
        claims: spec_drop_my_exclusive(spec_strike_hogger(s.claims, s.hogger), me),
        settings: s.settings,
        disabled_systemd_timers: s.disabled_systemd_timers,
    }
}

/// Releases the host: records the disengage outcome over every recorded
/// overmount, strikes the hogger's claim from the ledger and clears the
/// hogger, then drops the caller's own exclusive claims — also when hogging
/// never happened, so that repeated calls converge.
pub fn do_release(state: &mut DiskState, me: &str, unmount_ok: &Vec<bool>)
    requires
        unmount_ok@.len() == old(state)@.overmounts.len(),
    ensures
        final(state)@ == spec_do_release(old(state)@, me@, unmount_ok@),
{
    record_disengage(state, unmount_ok);
    let hog: Option<Claim> = match &state.hogger {
        Some(h) => Some(h.clone()),
        None => None,
    };
    if let Some(h) = &hog {
        let ghost dv = state@.claims;
        let mut kept: Vec<Claim> = Vec::new();
        let mut i: usize = 0;
        proof {
            assert(dv.take(0) =~= Seq::<ClaimView>::empty());
        }
        while i < state.claims.len()
            invariant
                i <= state.claims.len(),
                dv == state@.claims,
                dv.len() == state.claims.len(),
                kept.deep_view() == spec_remove_claim(dv.take(i as int), h@),
            decreases state.claims.len() - i,
        {
            let ghost pre = kept.deep_view();
            proof {
                assert(state@.claims[i as int] == state.claims@[i as int]@);
                assert(dv.take(i + 1).drop_last() =~= dv.take(i as int));
                assert(dv.take(i + 1).last() == dv[i as int]);
            }
            if !claim_eq(&state.claims[i], h) {
                kept.push(state.claims[i].clone());
                proof {
                    assert(kept.deep_view() =~= pre.push(dv[i as int]));
                }
            }
            i = i + 1;
        }
        proof {
            assert(dv.take(dv.len() as int) =~= dv);
        }
        state.claims = kept;
        state.hogger = None;
    }
    // drop the caller's own exclusive claims, whether or not a hogging stood
    let ghost dv2 = state@.claims;
    let mut kept2: Vec<Claim> = Vec::new();
    let mut i: usize = 0;
    proof {
        assert(dv2.take(0) =~= Seq::<ClaimView>::empty());
    }
    while i < state.claims.len()
        invariant
            i <= state.claims.len(),
            dv2 == state@.claims,
            dv2.len() == state.claims.len(),
            kept2.deep_view() == spec_drop_my_exclusive(dv2.take(i as int), me@),
        decreases state.claims.len() - i,
    {
        let ghost pre = kept2.deep_view();
        proof {
            assert(state@.claims[i as int] == state.claims@[i as int]@);
            assert(dv2.take(i + 1).drop_last() =~= dv2.take(i as int));
            assert(dv2.take(i + 1).last() == dv2[i as int]);
        }
        if !(str_eq(state.claims[i].user.as_str(), me) && state.claims[i].exclusive) {
            kept2.push(state.claims[i].clone());
            proof {
                assert(kept2.deep_view() =~= pre.push(dv2[i as int]));
            }
        }
        i = i + 1;
    }
    proof {
        assert(dv2.take(dv2.len() as int) =~= dv2);
    }
    state.claims = kept2;
    proof {
        assert(state@ =~= spec_do_release(old(state)@, me@, unmount_ok@));
    }
}

/// Whether the document is in the inconsistent shape reconciliation must
/// warn about and mend: nothing claims to hog the host, yet overmounts are
/// still recorded.
pub fn needs_orphan_cleanup(state: &DiskState) -> (r: bool)
    ensures
        r == (state@.hogger is None && state@.overmounts.len() != 0),
{
    state.hogger.is_none() && state.overmounts.len() != 0
}

/// A disengage pass in which every unmount succeeds leaves nothing
/// recorded.
proof fn lemma_failed_overmounts_all_ok(over: Seq<Seq<char>>, ok: Seq<bool>)
    requires
        ok.len() == over.len(),
        forall|i: int| 0 <= i < ok.len() ==> ok[i],
    ensures
        spec_failed_overmounts(over, ok).len() == 0,
    decreases over.len(),
{
    if over.len() > 0 {
        lemma_failed_overmounts_all_ok(over.drop_last(), ok.drop_last());
    }
}

/// A disengage pass retains every path whose unmount failed.
proof fn lemma_failed_overmounts_keep(over: Seq<Seq<char>>, ok: Seq<bool>)
    requires
        ok.len() == over.len(),
    ensures
        forall|i: int|
            0 <= i < ok.len() && !ok[i] ==> spec_failed_overmounts(over, ok).contains(over[i]),
    decreases over.len(),
{
    if over.len() > 0 {
        lemma_failed_overmounts_keep(over.drop_last(), ok.drop_last());
        let rest = spec_failed_overmounts(over.drop_last(), ok.drop_last());
        let res = spec_failed_overmounts(over, ok);
        assert forall|i: int| 0 <= i < ok.len() && !ok[i] implies res.contains(over[i]) by {
            if i < over.len() - 1 {
                assert(over.drop_last()[i] == over[i]);
                assert(ok.drop_last()[i] == ok[i]);
                assert(rest.contains(over[i]));
                let k = choose|k: int| 0 <= k < rest.len() && rest[k] == over[i];
                assert(res[k] == over[i]);
            } else {
                assert(res.last() == over[i]);
            }
        }
    }
}

/// Dropping a user's exclusive claims twice is dropping them once.
proof fn lemma_drop_my_exclusive_idem(claims: Seq<ClaimView>, me: Seq<char>)
    ensures
        spec_drop_my_exclusive(spec_drop_my_exclusive(claims, me), me) == spec_drop_my_exclusive(
            claims,
            me,
        ),
    decreases claims.len(),
{
    if claims.len() > 0 {
        lemma_drop_my_exclusive_idem(claims.drop_last(), me);
        let d = spec_drop_my_exclusive(claims, me);
        if !(claims.last().user == me && claims.last().exclusive) {
            assert(d.drop_last() =~= spec_drop_my_exclusive(claims.drop_last(), me));
            assert(d.last() == claims.last());
        }
    }
}

/// Release is idempotent: after a release whose unmounts all succeeded, a
/// second release (with nothing left to unmount) leaves the document exactly
/// as the first did.
pub proof fn lemma_release_idempotent(
    s: crate::diskstate::DiskStateView,
    me: Seq<char>,
    ok: Seq<bool>,
)
    requires
        ok.len() == s.overmounts.len(),
        forall|i: int| 0 <= i < ok.len() ==> ok[i],
    ensures
        spec_do_release(spec_do_release(s, me, ok), me, Seq::empty()) == spec_do_release(s, me, ok),
{
    let s1 = spec_do_release(s, me, ok);
    lemma_failed_overmounts_all_ok(s.overmounts, ok);
    assert(s1.overmounts =~= Seq::<Seq<char>>::empty());
    lemma_drop_my_exclusive_idem(spec_strike_hogger(s.claims, s.hogger), me);
    assert(spec_do_release(s1, me, Seq::empty()) =~= s1);
}

/// Engaging a set of files and then disengaging returns the recorded
/// overmounts to empty when every unmount succeeds; any path whose unmount
/// failed stays recorded.
pub proof fn lemma_engage_disengage_roundtrip(
    s: crate::diskstate::DiskStateView,
    attempted: Seq<Seq<char>>,
    outcomes: Seq<MountOutcome>,
    ok: Seq<bool>,
)
    requires
        s.overmounts.len() == 0,
        outcomes.len() == attempted.len(),
        ok.len() == (s.overmounts + spec_mounted_files(attempted, outcomes)).len(),
    ensures
        (forall|i: int| 0 <= i < ok.len() ==> ok[i]) ==> spec_failed_overmounts(
            s.overmounts + spec_mounted_files(attempted, outcomes),
            ok,
        ).len() == 0,
        forall|i: int|
            0 <= i < ok.len() && !ok[i] ==> spec_failed_overmounts(
                s.overmounts + spec_mounted_files(attempted, outcomes),
                ok,
            ).contains((s.overmounts + spec_mounted_files(attempted, outcomes))[i]),
{
    let over = s.overmounts + spec_mounted_files(attempted, outcomes);
    if forall|i: int| 0 <= i < ok.len() ==> ok[i] {
        lemma_failed_overmounts_all_ok(over, ok);
    }
    lemma_failed_overmounts_keep(over, ok);
}

} // verus!

