//! What individual operations give, stated over their inputs and results:
//! which projects restore themselves, what an edit stores, which servers
//! count as exposed, which command line a discovered server is given, and
//! what a scan does to the registered projects.

use vstd::prelude::*;
use crate::discovery::{
    best_cmd, command_line, dev_command, external_address, find_pid, strings_view, ProcessInfo,
    ShellStyle,
};
use crate::manager::{
    adopt_fold, discovery_pass, edit_outcome, key_index, keys_view, reconcile_fold, reconcile_step,
    restorable_ids, validation, visible, AppState, DiscoveryOutcome, Pick,
};
use crate::models::{
    DiscoveryCandidate, ProcessOrigin, ProjectInput, ProjectRecord, ProjectStatus, StartupPolicy,
};
use crate::text::{has_prefix, lower, trim};

verus! {

// ---------------------------------------------------------------------
// Restoring after a restart
// ---------------------------------------------------------------------

/// Some project in `ps` has id `id`, is waiting to be restored and, when
/// `auto_only`, has startup policy `Auto`.
pub open spec fn pending_with_id(ps: Seq<ProjectRecord>, id: Seq<char>, auto_only: bool) -> bool {
    exists|i: int|
        0 <= i < ps.len() && (#[trigger] ps[i]).id@ == id && ps[i].status
            == ProjectStatus::RestorePending && (!auto_only || ps[i].startup_policy
            == StartupPolicy::Auto)
}

proof fn lemma_restorable_members(ps: Seq<ProjectRecord>, auto_only: bool)
    ensures
        forall|k: int|
            0 <= k < restorable_ids(ps, auto_only).len() ==> pending_with_id(
                ps,
                #[trigger] restorable_ids(ps, auto_only)[k],
                auto_only,
            ),
        forall|i: int|
            0 <= i < ps.len() && (#[trigger] ps[i]).status == ProjectStatus::RestorePending && (
            !auto_only || ps[i].startup_policy == StartupPolicy::Auto) ==> restorable_ids(
                ps,
                auto_only,
            ).contains(ps[i].id@),
    decreases ps.len(),
{
    if ps.len() > 0 {
        let d = ps.drop_last();
        lemma_restorable_members(d, auto_only);
        let r = restorable_ids(ps, auto_only);
        let rd = restorable_ids(d, auto_only);
        assert forall|k: int| 0 <= k < r.len() implies pending_with_id(ps, #[trigger] r[k], auto_only) by {
            if k < rd.len() {
                assert(r[k] == rd[k]);
                assert(pending_with_id(d, rd[k], auto_only));
                let i = choose|i: int|
                    0 <= i < d.len() && (#[trigger] d[i]).id@ == rd[k] && d[i].status
                        == ProjectStatus::RestorePending && (!auto_only || d[i].startup_policy
                        == StartupPolicy::Auto);
                assert(ps[i] == d[i]);
            } else {
                let i = ps.len() - 1;
                assert(ps[i] == ps.last());
                assert(r[k] == ps[i].id@);
            }
        }
        assert forall|i: int|
            0 <= i < ps.len() && (#[trigger] ps[i]).status == ProjectStatus::RestorePending && (
            !auto_only || ps[i].startup_policy == StartupPolicy::Auto) implies r.contains(
            ps[i].id@,
        ) by {
            if i < d.len() {
                assert(ps[i] == d[i]);
                let k = choose|k: int| 0 <= k < rd.len() && rd[k] == d[i].id@;
                assert(r[k] == rd[k]);
            } else {
                assert(ps[i] == ps.last());
                assert(r[r.len() - 1] == ps.last().id@);
            }
        }
    }
}

/// Automatic restore after a restart starts exactly the projects waiting
/// to be restored whose startup policy is `Auto`: every id it lists is
/// that of such a project, and every such project is listed. A project
/// with policy `Ask` or `Manual` is listed only where an `Auto` project
/// waiting to be restored carries the same id.
pub proof fn lemma_auto_restore_by_policy(ps: Seq<ProjectRecord>)
    ensures
        forall|k: int|
            0 <= k < restorable_ids(ps, true).len() ==> pending_with_id(
                ps,
                #[trigger] restorable_ids(ps, true)[k],
                true,
            ),
        forall|i: int|
            0 <= i < ps.len() && (#[trigger] ps[i]).status == ProjectStatus::RestorePending
                && ps[i].startup_policy == StartupPolicy::Auto ==> restorable_ids(ps, true).contains(
                ps[i].id@,
            ),
{
    lemma_restorable_members(ps, true);
}

/// "Restore all" lists exactly the projects waiting to be restored,
/// whatever their startup policy: every id it lists is that of such a
/// project, and every such project is listed.
pub proof fn lemma_restore_all_lists_pending(ps: Seq<ProjectRecord>)
    ensures
        forall|k: int|
            0 <= k < restorable_ids(ps, false).len() ==> pending_with_id(
                ps,
                #[trigger] restorable_ids(ps, false)[k],
                false,
            ),
        forall|i: int|
            0 <= i < ps.len() && (#[trigger] ps[i]).status == ProjectStatus::RestorePending
                ==> restorable_ids(ps, false).contains(ps[i].id@),
{
    lemma_restorable_members(ps, false);
}

/// Whether project `p` restores itself after a restart: it is waiting to
/// be restored and its startup policy is `Auto`.
pub open spec fn restores_itself(p: ProjectRecord) -> bool {
    p.status == ProjectStatus::RestorePending && p.startup_policy == StartupPolicy::Auto
}

proof fn lemma_auto_list_is_filter(ps: Seq<ProjectRecord>)
    ensures
        restorable_ids(ps, true) == ps.filter(|p: ProjectRecord| restores_itself(p)).map_values(
            |p: ProjectRecord| p.id@,
        ),
    decreases ps.len(),
{
    reveal(Seq::filter);
    if ps.len() > 0 {
        lemma_auto_list_is_filter(ps.drop_last());
        let f = ps.filter(|p: ProjectRecord| restores_itself(p));
        let fd = ps.drop_last().filter(|p: ProjectRecord| restores_itself(p));
        if restores_itself(ps.last()) {
            assert(f == fd.push(ps.last()));
            assert(f.map_values(|p: ProjectRecord| p.id@) =~= fd.map_values(|p: ProjectRecord| p.id@).push(
                ps.last().id@,
            ));
        } else {
            assert(f == fd);
        }
    }
}

/// The projects that restore themselves after a restart are listed once
/// each, in the order of the projects: the list is the ids of exactly the
/// projects waiting to be restored with startup policy `Auto`.
pub proof fn lemma_auto_restore_lists_in_order(ps: Seq<ProjectRecord>)
    ensures
        restorable_ids(ps, true) == ps.filter(|p: ProjectRecord| restores_itself(p)).map_values(
            |p: ProjectRecord| p.id@,
        ),
{
    lemma_auto_list_is_filter(ps);
}

// ---------------------------------------------------------------------
// Editing a project
// ---------------------------------------------------------------------

/// An accepted edit of a project that is not running, starting or
/// stopping gives, and stores in place of the project's first record, a
/// record whose name, directory, command, URL and startup policy are
/// those of the entered input, trimmed (a blank URL becoming none). The
/// record keeps its id and creation time and is stamped with the edit's
/// time; no project is added or removed.
pub proof fn lemma_edit_stores_trimmed_input(
    pre: AppState,
    post: AppState,
    id: Seq<char>,
    input: ProjectInput,
    v: ProjectInput,
    dir_exists: bool,
    is_dir: bool,
    now: i64,
    r: Result<ProjectRecord, String>,
    i: int,
)
    requires
        validation(input, Ok(v), dir_exists, is_dir),
        edit_outcome(pre, post, id, v, now, r),
        0 <= i < pre.store.projects@.len(),
        pre.store.projects@[i].id@ == id,
        forall|k: int| 0 <= k < i ==> (#[trigger] pre.store.projects@[k]).id@ != id,
        pre.store.projects@[i].status != ProjectStatus::Running,
        pre.store.projects@[i].status != ProjectStatus::Starting,
        pre.store.projects@[i].status != ProjectStatus::Stopping,
    ensures
        r matches Ok(q) && {
            &&& q.name@ == trim(input.name@)
            &&& q.directory@ == trim(input.directory@)
            &&& q.command@ == trim(input.command@)
            &&& match input.url {
                Some(u) => if trim(u@).len() > 0 {
                    q.url matches Some(w) && w@ == trim(u@)
                } else {
                    q.url is None
                },
                None => q.url is None,
            }
            &&& q.startup_policy == input.startup_policy
            &&& q.discovery_key == if input.discovery_key is Some {
                input.discovery_key
            } else {
                pre.store.projects@[i].discovery_key
            }
            &&& q.detected_port == if input.detected_port is Some {
                input.detected_port
            } else {
                pre.store.projects@[i].detected_port
            }
            &&& q.status == pre.store.projects@[i].status
            &&& q.pid == pre.store.projects@[i].pid
            &&& q.log_path == pre.store.projects@[i].log_path
            &&& q.id == pre.store.projects@[i].id
            &&& q.created_at == pre.store.projects@[i].created_at
            &&& q.updated_at == now
            &&& post.store.projects@.len() == pre.store.projects@.len()
            &&& post.store.projects@[i] == q
        },
{
    assert(crate::manager::first_with_id(pre.store.projects@, id, i));
}

// ---------------------------------------------------------------------
// The command line of a discovered server
// ---------------------------------------------------------------------

/// The index in `t` of the process `k` steps up the parent chain from
/// `cur` (0: `cur` itself), while every step finds its process.
pub open spec fn chain_at(t: Seq<ProcessInfo>, cur: Option<u32>, k: nat) -> Option<int>
    decreases k,
{
    match cur {
        None => None,
        Some(p) => match find_pid(t, p) {
            None => None,
            Some(i) => if k == 0 {
                Some(i)
            } else {
                chain_at(t, t[i].parent, (k - 1) as nat)
            },
        },
    }
}

/// The command line of process `t[i]`, each argument quoted for `style`.
pub open spec fn cmd_at(t: Seq<ProcessInfo>, i: int, style: ShellStyle) -> Seq<char> {
    command_line(strings_view(t[i].cmd@), style)
}

proof fn lemma_nearest_command(
    t: Seq<ProcessInfo>,
    cur: Option<u32>,
    steps: nat,
    fallback: Seq<char>,
    style: ShellStyle,
)
    requires
        forall|k: nat|
            k < steps ==> (#[trigger] chain_at(t, cur, k) matches Some(i) ==> !dev_command(
                lower(cmd_at(t, i, style)),
            )),
    ensures
        fallback.len() > 0 ==> best_cmd(t, cur, steps, fallback, style) == fallback,
        fallback.len() == 0 ==> {
            let r = best_cmd(t, cur, steps, fallback, style);
            ||| r.len() == 0 && forall|k: nat|
                k < steps ==> (#[trigger] chain_at(t, cur, k) matches Some(i) ==> cmd_at(
                    t,
                    i,
                    style,
                ).len() == 0)
            ||| exists|k: nat, i: int|
                k < steps && #[trigger] chain_at(t, cur, k) == Some(i) && r == #[trigger] cmd_at(t, i, style)
                    && r.len() > 0 && forall|m: nat|
                    m < k ==> (#[trigger] chain_at(t, cur, m) matches Some(j) ==> cmd_at(
                        t,
                        j,
                        style,
                    ).len() == 0)
        },
    decreases steps,
{
    if steps == 0 {
        return;
    }
    match cur {
        None => {
            assert forall|k: nat| k < steps implies (#[trigger] chain_at(t, cur, k) matches Some(
                i,
            ) ==> cmd_at(t, i, style).len() == 0) by {}
        },
        Some(p) => match find_pid(t, p) {
            None => {
                assert forall|k: nat| k < steps implies (#[trigger] chain_at(t, cur, k) matches Some(
                    i,
                ) ==> cmd_at(t, i, style).len() == 0) by {}
            },
            Some(i) => {
                let c = cmd_at(t, i, style);
                assert(chain_at(t, cur, 0) == Some(i));
                assert(!dev_command(lower(c)));
                let parent = t[i].parent;
                assert forall|k: nat| k < steps - 1 implies (#[trigger] chain_at(t, parent, k)
                    matches Some(j) ==> !dev_command(lower(cmd_at(t, j, style)))) by {
                    assert(chain_at(t, cur, k + 1) == chain_at(t, parent, k));
                }
                let next = if fallback.len() == 0 && c.len() > 0 {
                    c
                } else {
                    fallback
                };
                lemma_nearest_command(t, parent, (steps - 1) as nat, next, style);
                assert(best_cmd(t, cur, steps, fallback, style) == best_cmd(
                    t,
                    parent,
                    (steps - 1) as nat,
                    next,
                    style,
                ));
                if fallback.len() == 0 {
                    let r = best_cmd(t, cur, steps, fallback, style);
                    if c.len() > 0 {
                        assert(chain_at(t, cur, 0) == Some(i) && r == cmd_at(t, i, style)
                            && r.len() > 0);
                        assert forall|m: nat| m < 0nat implies (#[trigger] chain_at(t, cur, m)
                            matches Some(j) ==> cmd_at(t, j, style).len() == 0) by {}
                    } else {
                        let rr = best_cmd(t, parent, (steps - 1) as nat, next, style);
                        if rr.len() == 0 && forall|k: nat|
                            k < steps - 1 ==> (#[trigger] chain_at(t, parent, k) matches Some(
                                j,
                            ) ==> cmd_at(t, j, style).len() == 0) {
                            assert forall|k: nat| k < steps implies (#[trigger] chain_at(
                                t,
                                cur,
                                k,
                            ) matches Some(j) ==> cmd_at(t, j, style).len() == 0) by {
                                if k > 0 {
                                    assert(chain_at(t, cur, k) == chain_at(
                                        t,
                                        parent,
                                        (k - 1) as nat,
                                    ));
                                }
                            }
                        } else {
                            let (k, j) = choose|k: nat, j: int|
                                k < steps - 1 && #[trigger] chain_at(t, parent, k) == Some(j)
                                    && rr == #[trigger] cmd_at(t, j, style) && rr.len() > 0 && forall|m: nat|
                                    m < k ==> (#[trigger] chain_at(t, parent, m) matches Some(
                                        jj,
                                    ) ==> cmd_at(t, jj, style).len() == 0);
                            assert(chain_at(t, cur, k + 1) == chain_at(t, parent, k));
                            assert forall|m: nat| m < k + 1 implies (#[trigger] chain_at(
                                t,
                                cur,
                                m,
                            ) matches Some(jj) ==> cmd_at(t, jj, style).len() == 0) by {
                                if m > 0 {
                                    assert(chain_at(t, cur, m) == chain_at(
                                        t,
                                        parent,
                                        (m - 1) as nat,
                                    ));
                                }
                            }
                            assert(chain_at(t, cur, (k + 1) as nat) == Some(j));
                        }
                    }
                }
            },
        },
    }
}

/// The command line given to a discovered server, when no process in the
/// walked parent chain (the server and up to three ancestors) runs a
/// development command: the command line of the nearest process in the
/// chain whose command line is not empty, or empty when all of them are.
pub proof fn lemma_command_is_nearest_non_empty(t: Seq<ProcessInfo>, pid: u32, style: ShellStyle)
    requires
        forall|k: nat|
            k < 4 ==> (#[trigger] chain_at(t, Some(pid), k) matches Some(i) ==> !dev_command(
                lower(cmd_at(t, i, style)),
            )),
    ensures
        ({
            let r = best_cmd(t, Some(pid), 4, seq![], style);
            ||| r.len() == 0 && forall|k: nat|
                k < 4 ==> (#[trigger] chain_at(t, Some(pid), k) matches Some(i) ==> cmd_at(
                    t,
                    i,
                    style,
                ).len() == 0)
            ||| exists|k: nat, i: int|
                k < 4 && #[trigger] chain_at(t, Some(pid), k) == Some(i) && r == #[trigger] cmd_at(t, i, style)
                    && r.len() > 0 && forall|m: nat|
                    m < k ==> (#[trigger] chain_at(t, Some(pid), m) matches Some(j) ==> cmd_at(
                        t,
                        j,
                        style,
                    ).len() == 0)
        }),
{
    lemma_nearest_command(t, Some(pid), 4, seq![], style);
}

proof fn lemma_dev_command_wins(
    t: Seq<ProcessInfo>,
    cur: Option<u32>,
    steps: nat,
    fallback: Seq<char>,
    style: ShellStyle,
    k: nat,
    i: int,
)
    requires
        k < steps,
        chain_at(t, cur, k) == Some(i),
        dev_command(lower(cmd_at(t, i, style))),
        forall|m: nat|
            m < k ==> (#[trigger] chain_at(t, cur, m) matches Some(j) ==> !dev_command(
                lower(cmd_at(t, j, style)),
            )),
    ensures
        best_cmd(t, cur, steps, fallback, style) == cmd_at(t, i, style),
    decreases k,
{
    let p = cur->0;
    let i0 = find_pid(t, p)->0;
    let c = cmd_at(t, i0, style);
    if k == 0 {
        assert(i0 == i);
    } else {
        assert(chain_at(t, cur, 0) == Some(i0));
        assert(!dev_command(lower(c)));
        let parent = t[i0].parent;
        assert(chain_at(t, cur, k) == chain_at(t, parent, (k - 1) as nat));
        assert forall|m: nat| m < (k - 1) as nat implies (#[trigger] chain_at(t, parent, m)
            matches Some(j) ==> !dev_command(lower(cmd_at(t, j, style)))) by {
            assert(chain_at(t, cur, m + 1) == chain_at(t, parent, m));
        }
        let next = if fallback.len() == 0 && c.len() > 0 {
            c
        } else {
            fallback
        };
        lemma_dev_command_wins(t, parent, (steps - 1) as nat, next, style, (k - 1) as nat, i);
    }
}

/// The command line given to a discovered server, when some process in
/// the walked parent chain (the server and up to three ancestors) runs a
/// development command: that of the nearest such process.
pub proof fn lemma_command_is_nearest_dev_command(
    t: Seq<ProcessInfo>,
    pid: u32,
    style: ShellStyle,
    k: nat,
    i: int,
)
    requires
        k < 4,
        chain_at(t, Some(pid), k) == Some(i),
        dev_command(lower(cmd_at(t, i, style))),
        forall|m: nat|
            m < k ==> (#[trigger] chain_at(t, Some(pid), m) matches Some(j) ==> !dev_command(
                lower(cmd_at(t, j, style)),
            )),
    ensures
        best_cmd(t, Some(pid), 4, seq![], style) == cmd_at(t, i, style),
{
    lemma_dev_command_wins(t, Some(pid), 4, seq![], style, k, i);
}

// ---------------------------------------------------------------------
// Registered projects found running by a scan
// ---------------------------------------------------------------------

/// Project `p` records discovery key `key`.
pub open spec fn records_key(p: ProjectRecord, key: Seq<char>) -> bool {
    p.discovery_key matches Some(k) && k@ == key
}

/// `ps[i]` is the first project that records `key`.
pub open spec fn first_with_key(ps: Seq<ProjectRecord>, i: int, key: Seq<char>) -> bool {
    &&& 0 <= i < ps.len()
    &&& records_key(ps[i], key)
    &&& forall|j: int| 0 <= j < i ==> !records_key(#[trigger] ps[j], key)
}

/// `cs[j]` is the last candidate with key `key`.
pub open spec fn last_with_key(cs: Seq<DiscoveryCandidate>, j: int, key: Seq<char>) -> bool {
    &&& 0 <= j < cs.len()
    &&& cs[j].key@ == key
    &&& forall|k: int| j < k < cs.len() ==> (#[trigger] cs[k]).key@ != key
}

/// Some candidate has key `key`.
pub open spec fn found_key(cs: Seq<DiscoveryCandidate>, key: Seq<char>) -> bool {
    exists|j: int| 0 <= j < cs.len() && (#[trigger] cs[j]).key@ == key
}

/// The manager itself runs project `p`: it launched it, and it is running,
/// starting or stopping.
pub open spec fn manager_runs(p: ProjectRecord) -> bool {
    &&& p.process_origin == ProcessOrigin::Manager
    &&& (p.status == ProjectStatus::Running || p.status == ProjectStatus::Starting || p.status
        == ProjectStatus::Stopping)
}

/// `ps[i]` is the first project recording a discovery key that some
/// candidate carries.
pub open spec fn matched_project(ps: Seq<ProjectRecord>, cs: Seq<DiscoveryCandidate>, i: int) -> bool {
    ps[i].discovery_key matches Some(k) && first_with_key(ps, i, k@) && found_key(cs, k@)
}

proof fn lemma_key_index_first(ps: Seq<ProjectRecord>, key: Seq<char>)
    ensures
        key_index(ps, key) matches Some(m) ==> first_with_key(ps, m, key),
        key_index(ps, key) is None ==> forall|j: int| 0 <= j < ps.len() ==> !records_key(#[trigger] ps[j], key),
    decreases ps.len(),
{
    if ps.len() > 0 {
        let d = ps.drop_first();
        lemma_key_index_first(d, key);
        if !(ps[0].discovery_key is Some && ps[0].discovery_key->0@ == key) {
            assert forall|j: int| 1 <= j < ps.len() implies ps[j] == d[j - 1] by {}
            if key_index(d, key) is None {
                assert forall|j: int| 0 <= j < ps.len() implies !records_key(#[trigger] ps[j], key) by {
                    if j > 0 {
                        assert(ps[j] == d[j - 1]);
                    }
                }
            } else {
                let m = key_index(d, key)->0;
                assert(first_with_key(d, m, key));
                assert forall|j: int| 0 <= j < m + 1 implies !records_key(#[trigger] ps[j], key) by {
                    if j > 0 {
                        assert(ps[j] == d[j - 1]);
                    }
                }
                assert(ps[m + 1] == d[m]);
            }
        }
    }
}

proof fn lemma_key_index_same_keys(ps: Seq<ProjectRecord>, q: Seq<ProjectRecord>, key: Seq<char>)
    requires
        ps.len() == q.len(),
        forall|i: int| 0 <= i < ps.len() ==> (#[trigger] ps[i]).discovery_key == q[i].discovery_key,
    ensures
        key_index(ps, key) == key_index(q, key),
    decreases ps.len(),
{
    if ps.len() > 0 {
        assert(ps[0].discovery_key == q[0].discovery_key);
        let dp = ps.drop_first();
        let dq = q.drop_first();
        assert forall|i: int| 0 <= i < dp.len() implies (#[trigger] dp[i]).discovery_key
            == dq[i].discovery_key by {
            assert(dp[i] == ps[i + 1] && dq[i] == q[i + 1]);
        }
        lemma_key_index_same_keys(dp, dq, key);
    }
}

/// What folding the candidates `cs` into the projects `ps` keeps.
spec fn reconcile_facts(
    ps: Seq<ProjectRecord>,
    cs: Seq<DiscoveryCandidate>,
    q: Seq<ProjectRecord>,
    b: bool,
) -> bool {
    &&& q.len() == ps.len()
    &&& forall|i: int| 0 <= i < ps.len() ==> (#[trigger] q[i]).discovery_key == ps[i].discovery_key
    &&& forall|i: int|
        0 <= i < ps.len() && matched_project(ps, cs, i) && !manager_runs(ps[i]) ==> {
            &&& (#[trigger] q[i]).status == ProjectStatus::Running
            &&& q[i].process_origin == ProcessOrigin::External
            &&& exists|j: int|
                last_with_key(cs, j, ps[i].discovery_key->0@) && q[i].pid == Some(
                    (#[trigger] cs[j]).pid,
                )
        }
    &&& forall|i: int|
        0 <= i < ps.len() && (!matched_project(ps, cs, i) || manager_runs(ps[i])) ==> #[trigger] q[i]
            == ps[i]
    &&& !b ==> q == ps
}

proof fn lemma_reconcile_fold_facts(ps: Seq<ProjectRecord>, cs: Seq<DiscoveryCandidate>, now: i64)
    ensures
        reconcile_facts(ps, cs, reconcile_fold(ps, cs, now).0, reconcile_fold(ps, cs, now).1),
    decreases cs.len(),
{
    if cs.len() == 0 {
        return;
    }
    let d = cs.drop_last();
    let c = cs.last();
    lemma_reconcile_fold_facts(ps, d, now);
    let (q, b) = reconcile_fold(ps, d, now);
    let (q2, b2) = reconcile_step(q, c, now);
    assert(reconcile_fold(ps, cs, now) == (q2, b || b2));
    lemma_key_index_same_keys(ps, q, c.key@);
    lemma_key_index_first(ps, c.key@);
    assert forall|j: int| 0 <= j < d.len() implies #[trigger] d[j] == cs[j] by {}
    // A project is matched in `cs` exactly when it is matched in `d`, or it
    // is the first one recording `c`'s key.
    assert forall|i: int| 0 <= i < ps.len() implies matched_project(ps, cs, i) == (matched_project(
        ps,
        d,
        i,
    ) || key_index(ps, c.key@) == Some(i)) by {
        if matched_project(ps, cs, i) {
            let k = ps[i].discovery_key->0@;
            let j = choose|j: int| 0 <= j < cs.len() && (#[trigger] cs[j]).key@ == k;
            if j < d.len() {
                assert(d[j] == cs[j]);
            } else {
                assert(cs[j] == c);
                lemma_key_index_first(ps, k);
                if let Some(m) = key_index(ps, k) {
                    if m < i {
                        assert(!records_key(ps[m], k));
                    } else if m > i {
                        assert(!records_key(ps[i], k));
                    }
                }
            }
        }
        if matched_project(ps, d, i) {
            let k = ps[i].discovery_key->0@;
            let j = choose|j: int| 0 <= j < d.len() && (#[trigger] d[j]).key@ == k;
            assert(cs[j] == d[j]);
        }
        if key_index(ps, c.key@) == Some(i) {
            assert(cs[cs.len() - 1] == c);
        }
    }
    match key_index(ps, c.key@) {
        None => {
            assert(q2 == q);
            assert forall|i: int|
                0 <= i < ps.len() && matched_project(ps, cs, i) && !manager_runs(ps[i]) implies {
                &&& (#[trigger] q2[i]).status == ProjectStatus::Running
                &&& q2[i].process_origin == ProcessOrigin::External
                &&& exists|j: int|
                    last_with_key(cs, j, ps[i].discovery_key->0@) && q2[i].pid == Some(
                        (#[trigger] cs[j]).pid,
                    )
            } by {
                let k = ps[i].discovery_key->0@;
                assert(matched_project(ps, d, i));
                let j = choose|j: int|
                    last_with_key(d, j, k) && q[i].pid == Some((#[trigger] d[j]).pid);
                assert(c.key@ != k);
                assert forall|k2: int| j < k2 < cs.len() implies (#[trigger] cs[k2]).key@ != k by {
                    if k2 < d.len() {
                        assert(cs[k2] == d[k2]);
                    } else {
                        assert(cs[k2] == c);
                    }
                }
                assert(cs[j] == d[j]);
                assert(last_with_key(cs, j, k));
            }
        },
        Some(m) => {
            assert(first_with_key(ps, m, c.key@));
            let k = c.key@;
            assert(q[m] == ps[m] || (q[m].process_origin == ProcessOrigin::External));
            assert forall|i: int| 0 <= i < ps.len() && i != m implies #[trigger] q2[i] == q[i] by {}
            assert forall|i: int|
                0 <= i < ps.len() && matched_project(ps, cs, i) && !manager_runs(ps[i]) implies {
                &&& (#[trigger] q2[i]).status == ProjectStatus::Running
                &&& q2[i].process_origin == ProcessOrigin::External
                &&& exists|j: int|
                    last_with_key(cs, j, ps[i].discovery_key->0@) && q2[i].pid == Some(
                        (#[trigger] cs[j]).pid,
                    )
            } by {
                let ki = ps[i].discovery_key->0@;
                if i == m {
                    assert(ki == k);
                    assert(last_with_key(cs, cs.len() - 1, k));
                    assert(cs[cs.len() - 1] == c);
                } else {
                    assert(matched_project(ps, d, i));
                    let j = choose|j: int|
                        last_with_key(d, j, ki) && q[i].pid == Some((#[trigger] d[j]).pid);
                    if ki == k {
                        assert(first_with_key(ps, i, ki));
                        if m < i {
                            assert(!records_key(ps[m], k));
                        } else {
                            assert(!records_key(ps[i], k));
                        }
                    }
                    assert(c.key@ != ki);
                    assert forall|k2: int| j < k2 < cs.len() implies (#[trigger] cs[k2]).key@ != ki by {
                        if k2 < d.len() {
                            assert(cs[k2] == d[k2]);
                        } else {
                            assert(cs[k2] == c);
                        }
                    }
                    assert(cs[j] == d[j]);
                    assert(last_with_key(cs, j, ki));
                }
            }
            assert forall|i: int|
                0 <= i < ps.len() && (!matched_project(ps, cs, i) || manager_runs(ps[i])) implies #[trigger] q2[i]
                == ps[i] by {
                if i == m {
                    assert(manager_runs(ps[m]));
                    assert(q[m] == ps[m]);
                    assert(is_active_status(ps[m].status));
                }
            }
        },
    }
}

spec fn is_active_status(s: ProjectStatus) -> bool {
    crate::models::is_active(s)
}

proof fn lemma_adopt_keeps_prefix(
    ps: Seq<ProjectRecord>,
    cs: Seq<DiscoveryCandidate>,
    picks: Seq<Pick>,
    policy: StartupPolicy,
    now: i64,
)
    ensures
        adopt_fold(ps, cs, picks, policy, now).0.len() >= ps.len(),
        forall|i: int| 0 <= i < ps.len() ==> #[trigger] adopt_fold(ps, cs, picks, policy, now).0[i] == ps[i],
    decreases picks.len(),
{
    if picks.len() > 0 {
        lemma_adopt_keeps_prefix(ps, cs, picks.drop_last(), policy, now);
    }
}

/// After a discovery pass, each registered project whose discovery key a
/// found, not hidden, candidate carries (the first project recording that
/// key) is `Running` with `External` origin and the process id of the last
/// such candidate, unless the manager itself runs it; every other project
/// that was registered before is as it was; and when the pass reports no
/// project found running again, all of them are as they were.
pub proof fn lemma_discovery_pass_marks_found_projects(
    before: AppState,
    found: Seq<DiscoveryCandidate>,
    now: i64,
    folders: Seq<Seq<char>>,
    is_dir: Seq<bool>,
    picks: Seq<Pick>,
    after: AppState,
    out: DiscoveryOutcome,
)
    requires
        discovery_pass(before, found, now, folders, is_dir, picks, after, out),
    ensures
        ({
            let ps = before.store.projects@;
            let vis = visible(found, keys_view(before.store.ignored_discovery_keys@));
            &&& after.store.projects@.len() >= ps.len()
            &&& forall|i: int|
                0 <= i < ps.len() && matched_project(ps, vis, i) && !manager_runs(ps[i]) ==> {
                    &&& (#[trigger] after.store.projects@[i]).status == ProjectStatus::Running
                    &&& after.store.projects@[i].process_origin == ProcessOrigin::External
                    &&& exists|j: int|
                        last_with_key(vis, j, ps[i].discovery_key->0@)
                            && after.store.projects@[i].pid == Some((#[trigger] vis[j]).pid)
                }
            &&& forall|i: int|
                0 <= i < ps.len() && (!matched_project(ps, vis, i) || manager_runs(ps[i]))
                    ==> #[trigger] after.store.projects@[i] == ps[i]
            &&& !out.reconciled ==> forall|i: int|
                0 <= i < ps.len() ==> #[trigger] after.store.projects@[i] == ps[i]
        }),
{
    let ps = before.store.projects@;
    let vis = visible(found, keys_view(before.store.ignored_discovery_keys@));
    lemma_reconcile_fold_facts(ps, vis, now);
    let (q, reconciled) = reconcile_fold(ps, vis, now);
    let offer = crate::manager::offered(before, found, now);
    lemma_adopt_keeps_prefix(q, offer, picks, before.store.settings.default_startup_policy, now);
    assert forall|i: int| 0 <= i < ps.len() implies #[trigger] after.store.projects@[i] == q[i] by {}
}

/// A scan's candidates, applied to the registered projects, mark as
/// running each project whose discovery key a candidate carries (the first
/// project recording that key): it becomes `Running` with `External`
/// origin and the process id of the last candidate with its key. A project
/// that the manager itself runs (launched by it and running, starting or
/// stopping) is left as it is, as is every project no candidate matches;
/// no project is added or removed; and when nothing is reported changed,
/// the projects are exactly as before.
pub proof fn lemma_scan_marks_found_projects_running(
    ps: Seq<ProjectRecord>,
    cs: Seq<DiscoveryCandidate>,
    now: i64,
)
    ensures
        ({
            let (q, changed) = reconcile_fold(ps, cs, now);
            &&& q.len() == ps.len()
            &&& forall|i: int|
                0 <= i < ps.len() && matched_project(ps, cs, i) && !manager_runs(ps[i]) ==> {
                    &&& (#[trigger] q[i]).status == ProjectStatus::Running
                    &&& q[i].process_origin == ProcessOrigin::External
                    &&& exists|j: int|
                        last_with_key(cs, j, ps[i].discovery_key->0@) && q[i].pid == Some(
                            (#[trigger] cs[j]).pid,
                        )
                }
            &&& forall|i: int|
                0 <= i < ps.len() && (!matched_project(ps, cs, i) || manager_runs(ps[i]))
                    ==> #[trigger] q[i] == ps[i]
            &&& !changed ==> q == ps
        }),
{
    lemma_reconcile_fold_facts(ps, cs, now);
}

// ---------------------------------------------------------------------
// Exposure to other machines
// ---------------------------------------------------------------------

/// Addresses that only the machine itself can reach: IPv4 loopback
/// (`127.*`), IPv6 loopback (`::1`, also bracketed) and `localhost`.
pub open spec fn loopback_address(a: Seq<char>) -> bool {
    has_prefix(a, "127."@) || a == "::1"@ || a == "[::1]"@ || a == "localhost"@
}

/// A server listening on a loopback address is never flagged as exposed
/// to the network, and one listening on a wildcard address (`0.0.0.0`,
/// `::`, `*`, `[::]`) always is.
pub proof fn lemma_loopback_never_exposed(a: Seq<char>)
    ensures
        loopback_address(a) ==> !external_address(a),
        a == "0.0.0.0"@ || a == "::"@ || a == "*"@ || a == "[::]"@ ==> external_address(a),
{
    reveal_strlit("0.0.0.0");
    reveal_strlit("::");
    reveal_strlit("*");
    reveal_strlit("[::]");
    reveal_strlit("127.");
    reveal_strlit("::1");
    reveal_strlit("[::1]");
    reveal_strlit("localhost");
    if has_prefix(a, "127."@) {
        assert(a[0] == "127."@[0]);
        assert(a[0] == '1');
    }
}

} // verus!
