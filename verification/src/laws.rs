//! What holds of the manager across its operations: the status model
//! after quitting and after a restart, what discovery offers and what it
//! leaves alone, hiding, restoring, and checking input.

use vstd::prelude::*;
use crate::discovery::{
    escape_single_quotes, posix_plain, quoted, ShellStyle, excluded_process, in_rank_order, lemma_rank_sorted_in_order,
    lemma_rank_sorted_permutes, localhost_url, rank_sorted, Scan, scan_result, some_root_prefixes,
    strings_view, runtime_of, common_dev_port, ListeningSocket, ProcessInfo, PathFacts,
};
use crate::manager::{
    adopt_fold, carried, discovery_pass, first_seen, exit_record, input_rejection, keys_view,
    lemma_trim_idempotent, normalized_of, offered, reconcile_fold, reconcile_step,
    relaunch_record, restorable_ids, starting, stopped, stopping, unregistered,
    validation, visible, with_ignored, without_key, key_index, Pick,
};
use crate::models::{
    is_active, DiscoveryCandidate, ProcessOrigin, ProjectInput, ProjectRecord, ProjectStatus,
};
use crate::manager::AppState;
use crate::manager::DiscoveryOutcome;
use crate::text::lower;

verus! {

// ---------------------------------------------------------------------
// Quitting and restarting
// ---------------------------------------------------------------------

/// After quitting, no project is running, starting or stopping; each one
/// that was wants to run again exactly when it is waiting to be restored,
/// and keeps no process; the others are untouched.
pub proof fn lemma_quitting_leaves_nothing_active(ps: Seq<ProjectRecord>, now: i64)
    ensures
        forall|i: int|
            #![trigger ps[i]]
            0 <= i < ps.len() ==> {
                let q = ps.map_values(|p: ProjectRecord| exit_record(p, now))[i];
                &&& !is_active(q.status)
                &&& is_active(ps[i].status) ==> q.pid is None && (q.status
                    == ProjectStatus::RestorePending <==> ps[i].desired_running)
                &&& !is_active(ps[i].status) ==> q == ps[i]
            },
{
}

/// After the first look at a restart, no project is starting or stopping,
/// and every running project has a process that is alive.
pub proof fn lemma_relaunch_is_consistent(ps: Seq<ProjectRecord>, alive: Seq<u32>)
    ensures
        forall|i: int|
            #![trigger ps[i]]
            0 <= i < ps.len() ==> {
                let q = ps.map_values(|p: ProjectRecord| relaunch_record(p, alive))[i];
                &&& q.status != ProjectStatus::Starting
                &&& q.status != ProjectStatus::Stopping
                &&& q.status == ProjectStatus::Running ==> q.pid is Some && alive.contains(
                    q.pid->0,
                )
            },
{
}

/// A project stopped by the user (stopping, then stopped, without keeping
/// the wish to run) is stopped, has no process and does not want to run;
/// starting it again launches its command.
pub proof fn lemma_stopped_project_launches_again(p: ProjectRecord, t1: i64, t2: i64, t3: i64)
    ensures
        ({
            let q = stopped(stopping(p, false, t1), false, t2);
            &&& q.status == ProjectStatus::Stopped
            &&& !q.desired_running
            &&& q.pid is None
            &&& !(q.status == ProjectStatus::Running || q.status == ProjectStatus::Starting)
            &&& starting(q, t3).status == ProjectStatus::Starting
            &&& starting(q, t3).desired_running
        }),
{
}

// ---------------------------------------------------------------------
// Discovery
// ---------------------------------------------------------------------

proof fn lemma_reconcile_step_spares(ps: Seq<ProjectRecord>, c: DiscoveryCandidate, now: i64, i: int)
    requires
        0 <= i < ps.len(),
        ps[i].process_origin == ProcessOrigin::Manager,
        is_active(ps[i].status),
    ensures
        reconcile_step(ps, c, now).0.len() == ps.len(),
        reconcile_step(ps, c, now).0[i] == ps[i],
{
    lemma_key_index_range(ps, c.key@);
}

proof fn lemma_key_index_range(ps: Seq<ProjectRecord>, key: Seq<char>)
    ensures
        key_index(ps, key) matches Some(j) ==> 0 <= j < ps.len(),
    decreases ps.len(),
{
    if ps.len() > 0 {
        lemma_key_index_range(ps.drop_first(), key);
    }
}

/// Discovery never touches a project whose process the manager itself
/// runs (or is starting or stopping): finding its server changes nothing.
pub proof fn lemma_discovery_spares_managed(
    ps: Seq<ProjectRecord>,
    cs: Seq<DiscoveryCandidate>,
    now: i64,
    i: int,
)
    requires
        0 <= i < ps.len(),
        ps[i].process_origin == ProcessOrigin::Manager,
        is_active(ps[i].status),
    ensures
        reconcile_fold(ps, cs, now).0.len() == ps.len(),
        reconcile_fold(ps, cs, now).0[i] == ps[i],
    decreases cs.len(),
{
    if cs.len() > 0 {
        lemma_discovery_spares_managed(ps, cs.drop_last(), now, i);
        let q = reconcile_fold(ps, cs.drop_last(), now).0;
        lemma_reconcile_step_spares(q, cs.last(), now, i);
    }
}

pub open spec fn none_hidden(cs: Seq<DiscoveryCandidate>, hidden: Seq<Seq<char>>) -> bool {
    forall|k: int| 0 <= k < cs.len() ==> !hidden.contains(#[trigger] cs[k].key@)
}

proof fn lemma_visible_none_hidden(cs: Seq<DiscoveryCandidate>, hidden: Seq<Seq<char>>)
    ensures
        none_hidden(visible(cs, hidden), hidden),
    decreases cs.len(),
{
    if cs.len() > 0 {
        lemma_visible_none_hidden(cs.drop_last(), hidden);
    }
}

proof fn lemma_unregistered_none_hidden(
    ps: Seq<ProjectRecord>,
    cs: Seq<DiscoveryCandidate>,
    hidden: Seq<Seq<char>>,
)
    requires
        none_hidden(cs, hidden),
    ensures
        none_hidden(unregistered(ps, cs), hidden),
    decreases cs.len(),
{
    if cs.len() > 0 {
        assert(none_hidden(cs.drop_last(), hidden)) by {
            assert forall|k: int| 0 <= k < cs.drop_last().len() implies !hidden.contains(
                #[trigger] cs.drop_last()[k].key@,
            ) by {
                assert(cs.drop_last()[k] == cs[k]);
            }
        }
        lemma_unregistered_none_hidden(ps, cs.drop_last(), hidden);
        assert(!hidden.contains(cs[cs.len() - 1].key@));
    }
}

proof fn lemma_without_key_none_hidden(
    cs: Seq<DiscoveryCandidate>,
    key: Seq<char>,
    hidden: Seq<Seq<char>>,
)
    requires
        none_hidden(cs, hidden),
    ensures
        none_hidden(without_key(cs, key), hidden),
    decreases cs.len(),
{
    if cs.len() > 0 {
        assert(none_hidden(cs.drop_last(), hidden)) by {
            assert forall|k: int| 0 <= k < cs.drop_last().len() implies !hidden.contains(
                #[trigger] cs.drop_last()[k].key@,
            ) by {
                assert(cs.drop_last()[k] == cs[k]);
            }
        }
        lemma_without_key_none_hidden(cs.drop_last(), key, hidden);
        assert(!hidden.contains(cs[cs.len() - 1].key@));
    }
}

proof fn lemma_adopt_none_hidden(
    ps: Seq<ProjectRecord>,
    cs: Seq<DiscoveryCandidate>,
    picks: Seq<Pick>,
    policy: crate::models::StartupPolicy,
    now: i64,
    hidden: Seq<Seq<char>>,
)
    requires
        none_hidden(cs, hidden),
    ensures
        none_hidden(adopt_fold(ps, cs, picks, policy, now).1, hidden),
    decreases picks.len(),
{
    if picks.len() > 0 {
        lemma_adopt_none_hidden(ps, cs, picks.drop_last(), policy, now, hidden);
        let cs1 = adopt_fold(ps, cs, picks.drop_last(), policy, now).1;
        lemma_without_key_none_hidden(cs1, picks.last().candidate.key@, hidden);
    }
}

/// A hidden candidate is never offered: after a discovery pass, no
/// candidate on offer carries a hidden key.
pub proof fn lemma_hidden_never_offered(
    before: AppState,
    found: Seq<DiscoveryCandidate>,
    now: i64,
    folders: Seq<Seq<char>>,
    is_dir: Seq<bool>,
    picks: Seq<Pick>,
    after: AppState,
    out: DiscoveryOutcome,
)
    requires
        discovery_pass(before, found, now, folders, is_dir, picks, after, out),
    ensures
        forall|k: int|
            0 <= k < after.discovered@.len() ==> !keys_view(
                before.store.ignored_discovery_keys@,
            ).contains(#[trigger] after.discovered@[k].key@),
{
    let hidden = keys_view(before.store.ignored_discovery_keys@);
    let vis = visible(found, hidden);
    let ps = reconcile_fold(before.store.projects@, vis, now).0;
    lemma_visible_none_hidden(found, hidden);
    lemma_unregistered_none_hidden(ps, vis, hidden);
    let offer = offered(before, found, now);
    assert(none_hidden(offer, hidden)) by {
        assert forall|k: int| 0 <= k < offer.len() implies !hidden.contains(
            #[trigger] offer[k].key@,
        ) by {
            assert(offer[k] == carried(before.discovered@, unregistered(ps, vis)[k]));
            assert(offer[k].key@ == unregistered(ps, vis)[k].key@);
        }
    }
    lemma_adopt_none_hidden(
        ps,
        offer,
        picks,
        before.store.settings.default_startup_policy,
        now,
        hidden,
    );
}

proof fn lemma_without_key_drops(cs: Seq<DiscoveryCandidate>, key: Seq<char>)
    ensures
        forall|k: int| 0 <= k < without_key(cs, key).len() ==> (#[trigger] without_key(cs, key)[k]).key@ != key,
        without_key(without_key(cs, key), key) == without_key(cs, key),
    decreases cs.len(),
{
    if cs.len() > 0 {
        lemma_without_key_drops(cs.drop_last(), key);
        if cs.last().key@ != key {
            let w = without_key(cs, key);
            assert(w.drop_last() == without_key(cs.drop_last(), key));
            assert(without_key(w, key) == without_key(w.drop_last(), key).push(w.last()));
        }
    }
}

/// Hiding a candidate twice is hiding it once, and a hidden candidate is
/// no longer offered.
pub proof fn lemma_hiding_is_idempotent(
    keys: Seq<Seq<char>>,
    cs: Seq<DiscoveryCandidate>,
    key: Seq<char>,
)
    ensures
        with_ignored(with_ignored(keys, key), key) == with_ignored(keys, key),
        with_ignored(keys, key).contains(key),
        without_key(without_key(cs, key), key) == without_key(cs, key),
        forall|k: int|
            0 <= k < without_key(cs, key).len() ==> (#[trigger] without_key(cs, key)[k]).key@
                != key,
{
    lemma_without_key_drops(cs, key);
    if !keys.contains(key) {
        assert(keys.push(key)[keys.len() as int] == key);
    }
}

proof fn lemma_admitted_upto(scan: Scan, n: int)
    requires
        0 <= n <= scan.sockets.len(),
    ensures
        forall|j: int|
            0 <= j < scan.admitted_upto(n).len() ==> 0 <= #[trigger] scan.admitted_upto(n)[j] < n
                && scan.admitted(scan.admitted_upto(n)[j]),
    decreases n,
{
    if n > 0 {
        lemma_admitted_upto(scan, n - 1);
        let prev = scan.admitted_upto(n - 1);
        let cur = scan.admitted_upto(n);
        assert forall|j: int| 0 <= j < cur.len() implies 0 <= #[trigger] cur[j] < n && scan.admitted(
            cur[j],
        ) by {
            if j < prev.len() {
                assert(cur[j] == prev[j]);
            }
        }
    }
}

/// Every candidate that a scan offers comes from a process other than the
/// manager, is not an excluded process, points at localhost on its port,
/// and has a confidence of at most 100; and the candidates are listed by
/// rank.
pub proof fn lemma_scan_candidates(scan: Scan, r: Seq<DiscoveryCandidate>)
    requires
        scan.ranked(r),
    ensures
        in_rank_order(r),
        forall|k: int|
            0 <= k < r.len() ==> {
                let c = #[trigger] r[k];
                &&& c.pid != 0
                &&& c.pid != scan.own_pid
                &&& !excluded_process(lower(c.process_name@))
                &&& c.url@ == localhost_url(c.port)
                &&& c.confidence <= 100
            },
{
    broadcast use vstd::seq_lib::group_to_multiset_ensures;

    let u = choose|u: Seq<DiscoveryCandidate>| scan.fits_all(u) && r == rank_sorted(u);
    lemma_rank_sorted_in_order(u);
    lemma_rank_sorted_permutes(u);
    lemma_admitted_upto(scan, scan.sockets.len() as int);
    let a = scan.admitted_upto(scan.sockets.len() as int);
    assert forall|k: int| 0 <= k < r.len() implies {
        let c = #[trigger] r[k];
        &&& c.pid != 0
        &&& c.pid != scan.own_pid
        &&& !excluded_process(lower(c.process_name@))
        &&& c.url@ == localhost_url(c.port)
        &&& c.confidence <= 100
    } by {
        assert(r.to_multiset().count(r[k]) > 0);
        assert(u.to_multiset().count(r[k]) > 0);
        assert(u.contains(r[k]));
        let j = choose|j: int| 0 <= j < u.len() && u[j] == r[k];
        assert(scan.fits(u[j], a[j]));
        assert(scan.admitted(a[j]));
    }
}


/// Discovery keeps to the watched workspace folders: with folders watched,
/// every candidate has a directory and some watched folder is a path
/// prefix of it (both compared as the platform compares paths); with none
/// watched, every candidate runs a known development runtime or listens
/// on a common development port.
pub proof fn lemma_scan_respects_workspace(
    sockets: Seq<ListeningSocket>,
    processes: Seq<ProcessInfo>,
    own_pid: u32,
    roots: Seq<String>,
    style: ShellStyle,
    facts: Seq<PathFacts>,
    now: i64,
    r: Seq<DiscoveryCandidate>,
)
    requires
        scan_result(sockets, processes, own_pid, roots, style, facts, now, r),
    ensures
        roots.len() > 0 ==> forall|k: int|
            0 <= k < r.len() ==> (#[trigger] r[k]).directory@.len() > 0 && exists|
                rd: Option<Seq<char>>,
                rr: Seq<Option<Seq<char>>>,
            |
                rr.len() == roots.len() && #[trigger] some_root_prefixes(
                    r[k].directory@,
                    strings_view(roots),
                    rd,
                    rr,
                    style,
                ),
        roots.len() == 0 ==> forall|k: int|
            0 <= k < r.len() ==> runtime_of(lower((#[trigger] r[k]).process_name@)).1 != 0
                || common_dev_port(r[k].port),
{
    broadcast use vstd::seq_lib::group_to_multiset_ensures;

    let scan = Scan { sockets, processes, own_pid, roots_nonempty: roots.len() > 0, facts, style, now };
    let u = choose|u: Seq<DiscoveryCandidate>| scan.fits_all(u) && r == rank_sorted(u);
    lemma_rank_sorted_permutes(u);
    lemma_admitted_upto(scan, scan.sockets.len() as int);
    let a = scan.admitted_upto(scan.sockets.len() as int);
    assert forall|k: int| 0 <= k < r.len() implies {
        &&& roots.len() > 0 ==> (#[trigger] r[k]).directory@.len() > 0 && exists|
            rd: Option<Seq<char>>,
            rr: Seq<Option<Seq<char>>>,
        |
            rr.len() == roots.len() && #[trigger] some_root_prefixes(
                r[k].directory@,
                strings_view(roots),
                rd,
                rr,
                style,
            )
        &&& roots.len() == 0 ==> runtime_of(lower(r[k].process_name@)).1 != 0 || common_dev_port(
            r[k].port,
        )
    } by {
        assert(r.to_multiset().count(r[k]) > 0);
        assert(u.to_multiset().count(r[k]) > 0);
        assert(u.contains(r[k]));
        let j = choose|j: int| 0 <= j < u.len() && u[j] == r[k];
        let i = a[j];
        assert(scan.fits(u[j], i));
        assert(scan.admitted(i));
        assert(facts[i] == scan.facts[i]);
        if roots.len() > 0 {
            assert(scan.under(i));
        }
    }
}

/// Candidates are flagged as reachable from other machines by their own
/// address alone: a candidate listening on a loopback address (`127.*`,
/// `::1`, `localhost`) is never flagged, and one listening on a wildcard
/// address (`0.0.0.0`, `::`, `*`, `[::]`) always is.
pub proof fn lemma_scan_exposure_flags(scan: Scan, r: Seq<DiscoveryCandidate>)
    requires
        scan.ranked(r),
    ensures
        forall|k: int|
            0 <= k < r.len() ==> {
                &&& crate::outcomes::loopback_address((#[trigger] r[k]).address@)
                    ==> !r[k].external_exposure
                &&& (r[k].address@ == "0.0.0.0"@ || r[k].address@ == "::"@ || r[k].address@
                    == "*"@ || r[k].address@ == "[::]"@) ==> r[k].external_exposure
            },
{
    broadcast use vstd::seq_lib::group_to_multiset_ensures;

    let u = choose|u: Seq<DiscoveryCandidate>| scan.fits_all(u) && r == rank_sorted(u);
    lemma_rank_sorted_permutes(u);
    lemma_admitted_upto(scan, scan.sockets.len() as int);
    let a = scan.admitted_upto(scan.sockets.len() as int);
    assert forall|k: int| 0 <= k < r.len() implies {
        &&& crate::outcomes::loopback_address((#[trigger] r[k]).address@) ==> !r[k].external_exposure
        &&& (r[k].address@ == "0.0.0.0"@ || r[k].address@ == "::"@ || r[k].address@ == "*"@
            || r[k].address@ == "[::]"@) ==> r[k].external_exposure
    } by {
        assert(r.to_multiset().count(r[k]) > 0);
        assert(u.to_multiset().count(r[k]) > 0);
        assert(u.contains(r[k]));
        let j = choose|j: int| 0 <= j < u.len() && u[j] == r[k];
        assert(scan.fits(u[j], a[j]));
        crate::outcomes::lemma_loopback_never_exposed(r[k].address@);
    }
}

// ---------------------------------------------------------------------
// Restoring
// ---------------------------------------------------------------------

/// What restores itself after a restart is among what "restore all"
/// restores: projects waiting to be restored.
pub proof fn lemma_auto_restore_within_restore_all(ps: Seq<ProjectRecord>)
    ensures
        forall|k: int|
            0 <= k < restorable_ids(ps, true).len() ==> restorable_ids(ps, false).contains(
                #[trigger] restorable_ids(ps, true)[k],
            ),
    decreases ps.len(),
{
    if ps.len() > 0 {
        lemma_auto_restore_within_restore_all(ps.drop_last());
        let all0 = restorable_ids(ps.drop_last(), false);
        let auto0 = restorable_ids(ps.drop_last(), true);
        let all = restorable_ids(ps, false);
        let auto = restorable_ids(ps, true);
        assert forall|k: int| 0 <= k < auto.len() implies all.contains(#[trigger] auto[k]) by {
            if k < auto0.len() {
                assert(auto[k] == auto0[k]);
                assert(all0.contains(auto0[k]));
                let m = choose|m: int| 0 <= m < all0.len() && all0[m] == auto0[k];
                if all.len() > all0.len() {
                    assert(all[m] == all0[m]);
                } else {
                    assert(all == all0);
                }
            } else {
                assert(auto[k] == ps.last().id@);
                assert(all[all.len() - 1] == ps.last().id@);
            }
        }
    }
}

// ---------------------------------------------------------------------
// Checking input
// ---------------------------------------------------------------------

/// An accepted input is accepted again, unchanged: checking is
/// idempotent.
pub proof fn lemma_validation_idempotent(raw: ProjectInput, v: ProjectInput, e: bool, d: bool)
    requires
        validation(raw, Ok(v), e, d),
    ensures
        input_rejection(v, e, d) is None,
        forall|w: ProjectInput| #[trigger] normalized_of(w, v) ==> normalized_of(w, raw),
{
    lemma_trim_idempotent(raw.name@);
    lemma_trim_idempotent(raw.command@);
    lemma_trim_idempotent(raw.directory@);
    if raw.url is Some {
        lemma_trim_idempotent(raw.url->0@);
    }
}

// ---------------------------------------------------------------------
// Command lines
// ---------------------------------------------------------------------

/// How a POSIX shell reads one word, a character at a time, removing
/// quotes: (inside single quotes, just after a backslash, text read).
pub open spec fn shell_read(s: Seq<char>) -> (bool, bool, Seq<char>)
    decreases s.len(),
{
    if s.len() == 0 {
        (false, false, seq![])
    } else {
        let (q, e, out) = shell_read(s.drop_last());
        let c = s.last();
        if q {
            if c == '\'' {
                (false, false, out)
            } else {
                (true, false, out.push(c))
            }
        } else if e {
            (false, false, out.push(c))
        } else if c == '\'' {
            (true, false, out)
        } else if c == '\\' {
            (false, true, out)
        } else {
            (false, false, out.push(c))
        }
    }
}

proof fn lemma_read_plain(a: Seq<char>)
    requires
        forall|i: int| 0 <= i < a.len() ==> posix_plain(#[trigger] a[i]),
    ensures
        shell_read(a) == (false, false, a),
    decreases a.len(),
{
    if a.len() > 0 {
        assert(posix_plain(a[a.len() - 1]));
        lemma_read_plain(a.drop_last());
        assert(a.drop_last().push(a.last()) =~= a);
    }
}

proof fn lemma_read_quoted_body(a: Seq<char>)
    ensures
        shell_read(seq!['\''] + escape_single_quotes(a)) == (true, false, a),
    decreases a.len(),
{
    if a.len() == 0 {
        assert(seq!['\''] + escape_single_quotes(a) =~= seq!['\'']);
        assert(seq!['\''].drop_last() =~= Seq::<char>::empty());
        assert(shell_read(Seq::<char>::empty()) == (false, false, Seq::<char>::empty()));
        assert(shell_read(seq!['\'']) == (true, false, Seq::<char>::empty()));
        assert(a =~= Seq::<char>::empty());
    } else {
        let d = a.drop_last();
        lemma_read_quoted_body(d);
        let x = seq!['\''] + escape_single_quotes(d);
        assert(d.push(a.last()) =~= a);
        if a.last() == '\'' {
            let s4 = seq!['\''] + escape_single_quotes(a);
            assert(s4 =~= x + seq!['\'', '\\', '\'', '\'']);
            let s3 = x + seq!['\'', '\\', '\''];
            let s2 = x + seq!['\'', '\\'];
            let s1 = x + seq!['\''];
            assert(s4.drop_last() =~= s3);
            assert(s3.drop_last() =~= s2);
            assert(s2.drop_last() =~= s1);
            assert(s1.drop_last() =~= x);
            assert(shell_read(s1) == (false, false, d));
            assert(shell_read(s2) == (false, true, d));
            assert(shell_read(s3) == (false, false, d.push('\'')));
            assert(shell_read(s4) == (true, false, d.push('\'')));
            assert(d.push('\'') == a);
        } else {
            let s1 = seq!['\''] + escape_single_quotes(a);
            assert(s1 =~= x + seq![a.last()]);
            assert(s1.drop_last() =~= x);
            assert(s1.last() == a.last());
            assert(shell_read(s1) == (true, false, d.push(a.last())));
        }
    }
}

/// A POSIX shell reads every argument written by `shell_quote` back as
/// the argument itself.
pub proof fn lemma_posix_quoting_reads_back(a: Seq<char>)
    ensures
        shell_read(quoted(a, ShellStyle::Posix)) == (false, false, a),
{
    if forall|i: int| 0 <= i < a.len() ==> posix_plain(#[trigger] a[i]) {
        lemma_read_plain(a);
    } else {
        lemma_read_quoted_body(a);
        let q = seq!['\''] + escape_single_quotes(a) + seq!['\''];
        assert(q.drop_last() =~= seq!['\''] + escape_single_quotes(a));
    }
}

proof fn lemma_pending_is_restorable(ps: Seq<ProjectRecord>, i: int)
    requires
        0 <= i < ps.len(),
        ps[i].status == ProjectStatus::RestorePending,
    ensures
        restorable_ids(ps, false).contains(ps[i].id@),
    decreases ps.len(),
{
    if i < ps.len() - 1 {
        lemma_pending_is_restorable(ps.drop_last(), i);
        let prev = restorable_ids(ps.drop_last(), false);
        let m = choose|m: int| 0 <= m < prev.len() && prev[m] == ps[i].id@;
        assert(ps.drop_last()[i] == ps[i]);
        if ps.last().status == ProjectStatus::RestorePending {
            assert(restorable_ids(ps, false)[m] == prev[m]);
        }
    } else {
        let all = restorable_ids(ps, false);
        assert(all[all.len() - 1] == ps[i].id@);
    }
}

/// What was running when the manager quit is offered for restoring after
/// the next start: a project that was running, starting or stopping and
/// wanted to run is waiting to be restored once the manager has looked at
/// the processes again (its old process is gone), and "restore all" starts
/// it.
pub proof fn lemma_running_projects_restored_after_restart(
    ps: Seq<ProjectRecord>,
    now: i64,
    alive: Seq<u32>,
    i: int,
)
    requires
        0 <= i < ps.len(),
        is_active(ps[i].status),
        ps[i].desired_running,
    ensures
        ({
            let after = ps.map_values(|p: ProjectRecord| exit_record(p, now)).map_values(
                |p: ProjectRecord| relaunch_record(p, alive),
            );
            &&& after[i].status == ProjectStatus::RestorePending
            &&& restorable_ids(after, false).contains(ps[i].id@)
        }),
{
    let q = ps.map_values(|p: ProjectRecord| exit_record(p, now));
    let after = q.map_values(|p: ProjectRecord| relaunch_record(p, alive));
    assert(q[i].pid is None);
    assert(after[i] == q[i]);
    lemma_pending_is_restorable(after, i);
}


// ---------------------------------------------------------------------
// First-seen times across rescans
// ---------------------------------------------------------------------

/// No two of the candidates share a key.
pub open spec fn keys_unique(cs: Seq<DiscoveryCandidate>) -> bool {
    forall|a: int, b: int|
        0 <= a < cs.len() && 0 <= b < cs.len() && (#[trigger] cs[a]).key@ == (#[trigger] cs[b]).key@
            ==> a == b
}

/// Every candidate in `cs` with key `key` carries the first-seen time `t`.
pub open spec fn seen_at(cs: Seq<DiscoveryCandidate>, key: Seq<char>, t: i64) -> bool {
    forall|k: int| 0 <= k < cs.len() && (#[trigger] cs[k]).key@ == key ==> cs[k].discovered_at == t
}

proof fn lemma_first_seen_of_unique(prev: Seq<DiscoveryCandidate>, j: int)
    requires
        0 <= j < prev.len(),
        keys_unique(prev),
    ensures
        first_seen(prev, prev[j].key@) == Some(prev[j].discovered_at),
    decreases prev.len(),
{
    let last = prev.len() - 1;
    if j != last {
        assert(prev.last() == prev[last]);
        assert(prev[last].key@ != prev[j].key@);
        let d = prev.drop_last();
        assert(d[j] == prev[j]);
        assert(keys_unique(d)) by {
            assert forall|a: int, b: int|
                0 <= a < d.len() && 0 <= b < d.len() && (#[trigger] d[a]).key@ == (#[trigger] d[b]).key@
                implies a == b by {
                assert(d[a] == prev[a] && d[b] == prev[b]);
            }
        }
        lemma_first_seen_of_unique(d, j);
    }
}

proof fn lemma_without_key_seen_at(cs: Seq<DiscoveryCandidate>, drop: Seq<char>, key: Seq<char>, t: i64)
    requires
        seen_at(cs, key, t),
    ensures
        seen_at(without_key(cs, drop), key, t),
    decreases cs.len(),
{
    if cs.len() > 0 {
        assert(seen_at(cs.drop_last(), key, t)) by {
            assert forall|k: int| 0 <= k < cs.drop_last().len() && (#[trigger] cs.drop_last()[k]).key@
                == key implies cs.drop_last()[k].discovered_at == t by {
                assert(cs.drop_last()[k] == cs[k]);
            }
        }
        lemma_without_key_seen_at(cs.drop_last(), drop, key, t);
    }
}

proof fn lemma_adopt_seen_at(
    ps: Seq<ProjectRecord>,
    cs: Seq<DiscoveryCandidate>,
    picks: Seq<Pick>,
    policy: crate::models::StartupPolicy,
    now: i64,
    key: Seq<char>,
    t: i64,
)
    requires
        seen_at(cs, key, t),
    ensures
        seen_at(adopt_fold(ps, cs, picks, policy, now).1, key, t),
    decreases picks.len(),
{
    if picks.len() > 0 {
        lemma_adopt_seen_at(ps, cs, picks.drop_last(), policy, now, key, t);
        let cs1 = adopt_fold(ps, cs, picks.drop_last(), policy, now).1;
        lemma_without_key_seen_at(cs1, picks.last().candidate.key@, key, t);
    }
}

/// A candidate already on offer keeps its first-seen time across a rescan:
/// when the candidates on offer before a discovery pass have distinct
/// keys, every candidate on offer after it that has the key of one of them
/// carries that one's first-seen time.
pub proof fn lemma_first_seen_survives_rescan(
    before: AppState,
    found: Seq<DiscoveryCandidate>,
    now: i64,
    folders: Seq<Seq<char>>,
    is_dir: Seq<bool>,
    picks: Seq<Pick>,
    after: AppState,
    out: DiscoveryOutcome,
    j: int,
)
    requires
        discovery_pass(before, found, now, folders, is_dir, picks, after, out),
        0 <= j < before.discovered@.len(),
        keys_unique(before.discovered@),
    ensures
        forall|k: int|
            0 <= k < after.discovered@.len() && (#[trigger] after.discovered@[k]).key@
                == before.discovered@[j].key@ ==> after.discovered@[k].discovered_at
                == before.discovered@[j].discovered_at,
{
    let prev = before.discovered@;
    let c0 = prev[j];
    let hidden = keys_view(before.store.ignored_discovery_keys@);
    let vis = visible(found, hidden);
    let ps = reconcile_fold(before.store.projects@, vis, now).0;
    let offer = offered(before, found, now);
    lemma_first_seen_of_unique(prev, j);
    assert(seen_at(offer, c0.key@, c0.discovered_at)) by {
        assert forall|k: int| 0 <= k < offer.len() && (#[trigger] offer[k]).key@ == c0.key@
            implies offer[k].discovered_at == c0.discovered_at by {
            assert(offer[k] == carried(prev, unregistered(ps, vis)[k]));
        }
    }
    lemma_adopt_seen_at(
        ps,
        offer,
        picks,
        before.store.settings.default_startup_policy,
        now,
        c0.key@,
        c0.discovered_at,
    );
}

} // verus!
