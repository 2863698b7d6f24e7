//! The manager's state and every decision it takes about projects: which
//! status a project moves to when it is started, stopped, exits, or is
//! found again after a restart, what the dashboard counts, which
//! discovered servers are offered, adopted or hidden. Launching and
//! killing processes, files and the window are the caller's part; each
//! operation here says what it decided and what the caller must do.

use vstd::prelude::*;
use crate::models::{
    copy_candidates, copy_projects, is_active, status_is_active, AppSettings, DashboardSnapshot,
    DiscoveryCandidate, PersistedState, ProcessOrigin, ProjectRecord, ProjectStatus,
    ProjectInput, StartupPolicy,
};
use crate::platform::{join_path, now_ms, now_secs, path_exists, path_is_dir, path_join};
use crate::text::{
    chars_of, decimal, has_prefix, push_decimal, push_str, str_starts_with, string_of, trim, trim_end,
    trim_start, trim_string,
};

verus! {

// ---------------------------------------------------------------------
// Looking projects up
// ---------------------------------------------------------------------

/// `i` is the first project with this id.
pub open spec fn first_with_id(ps: Seq<ProjectRecord>, id: Seq<char>, i: int) -> bool {
    &&& 0 <= i < ps.len()
    &&& ps[i].id@ == id
    &&& forall|k: int| 0 <= k < i ==> (#[trigger] ps[k]).id@ != id
}

pub open spec fn has_id(ps: Seq<ProjectRecord>, id: Seq<char>) -> bool {
    exists|i: int| 0 <= i < ps.len() && (#[trigger] ps[i]).id@ == id
}

/// The position of the first project with id `id`.
pub fn find_project(projects: &Vec<ProjectRecord>, id: &str) -> (r: Option<usize>)
    ensures
        match r {
            Some(i) => first_with_id(projects@, id@, i as int),
            None => !has_id(projects@, id@),
        },
{
    let mut i: usize = 0;
    while i < projects.len()
        invariant
            i <= projects.len(),
            forall|k: int| 0 <= k < i ==> (#[trigger] projects@[k]).id@ != id@,
        decreases projects.len() - i,
    {
        if crate::text::str_equal(projects[i].id.as_str(), id) {
            return Some(i);
        }
        i += 1;
    }
    None
}

// ---------------------------------------------------------------------
// The dashboard
// ---------------------------------------------------------------------

/// How many projects have status `st`.
pub open spec fn count_status(ps: Seq<ProjectRecord>, st: ProjectStatus) -> nat
    decreases ps.len(),
{
    if ps.len() == 0 {
        0
    } else {
        count_status(ps.drop_last(), st) + if ps.last().status == st {
            1nat
        } else {
            0
        }
    }
}

fn count_with_status(ps: &Vec<ProjectRecord>, st: ProjectStatus) -> (r: usize)
    ensures
        r == count_status(ps@, st),
{
    let mut n: usize = 0;
    let mut i: usize = 0;
    while i < ps.len()
        invariant
            i <= ps.len(),
            n == count_status(ps@.subrange(0, i as int), st),
            n <= i,
        decreases ps.len() - i,
    {
        assert(ps@.subrange(0, i + 1).drop_last() =~= ps@.subrange(0, i as int));
        if ps[i].status == st {
            n += 1;
        }
        i += 1;
    }
    assert(ps@.subrange(0, ps.len() as int) =~= ps@);
    n
}

/// The dashboard summary of a saved state and the current candidates.
pub fn snapshot_from_store(store: &PersistedState, discovered: &[DiscoveryCandidate]) -> (r:
    DashboardSnapshot)
    ensures
        r.settings.same_as(&store.settings),
        r.projects@ == store.projects@,
        r.restore_count == count_status(store.projects@, ProjectStatus::RestorePending),
        r.running_count == count_status(store.projects@, ProjectStatus::Running),
        r.crashed_count == count_status(store.projects@, ProjectStatus::Crashed),
        r.discovery_candidates@ == discovered@,
        r.discovery_count == discovered@.len(),
        r.ignored_discovery_count == store.ignored_discovery_keys@.len(),
{
    DashboardSnapshot {
        settings: store.settings.copy(),
        projects: copy_projects(&store.projects),
        restore_count: count_with_status(&store.projects, ProjectStatus::RestorePending),
        running_count: count_with_status(&store.projects, ProjectStatus::Running),
        crashed_count: count_with_status(&store.projects, ProjectStatus::Crashed),
        discovery_candidates: copy_candidates(discovered),
        discovery_count: discovered.len(),
        ignored_discovery_count: store.ignored_discovery_keys.len(),
    }
}

/// The dashboard's three counts cover distinct projects: together they
/// never exceed the number of projects.
pub proof fn lemma_counts_within_projects(ps: Seq<ProjectRecord>)
    ensures
        count_status(ps, ProjectStatus::RestorePending) + count_status(ps, ProjectStatus::Running)
            + count_status(ps, ProjectStatus::Crashed) <= ps.len(),
    decreases ps.len(),
{
    if ps.len() > 0 {
        lemma_counts_within_projects(ps.drop_last());
    }
}

// ---------------------------------------------------------------------
// The manager's state
// ---------------------------------------------------------------------

/// A process that the manager launched and still waits for.
#[derive(Debug)]
pub struct RuntimeProcess {
    pub id: String,
    pub pid: u32,
    /// Tells this launch apart from a later launch of the same project.
    pub generation: String,
}

/// The manager's state: the saved records, the processes it launched, the
/// candidates that discovery offers, and whether it is quitting.
#[derive(Debug)]
pub struct AppState {
    pub data_dir: String,
    pub store: PersistedState,
    pub runtimes: Vec<RuntimeProcess>,
    pub discovered: Vec<DiscoveryCandidate>,
    pub quitting: bool,
}

impl AppState {
    /// A manager over a saved state, with nothing launched or discovered.
    pub fn new(data_dir: String, store: PersistedState) -> (r: AppState)
        ensures
            r.data_dir == data_dir,
            r.store == store,
            r.runtimes@.len() == 0,
            runtime_ids_unique(r.runtimes@),
            r.discovered@.len() == 0,
            !r.quitting,
    {
        AppState { data_dir, store, runtimes: Vec::new(), discovered: Vec::new(), quitting: false }
    }

    /// What the dashboard shows now.
    pub fn snapshot(&self) -> (r: DashboardSnapshot)
        ensures
            r.settings.same_as(&self.store.settings),
            r.projects@ == self.store.projects@,
            r.restore_count == count_status(self.store.projects@, ProjectStatus::RestorePending),
            r.running_count == count_status(self.store.projects@, ProjectStatus::Running),
            r.crashed_count == count_status(self.store.projects@, ProjectStatus::Crashed),
            r.discovery_candidates@ == self.discovered@,
            r.discovery_count == self.discovered@.len(),
            r.ignored_discovery_count == self.store.ignored_discovery_keys@.len(),
    {
        snapshot_from_store(&self.store, self.discovered.as_slice())
    }

    /// The current settings.
    pub fn settings(&self) -> (r: AppSettings)
        ensures
            r.same_as(&self.store.settings),
    {
        self.store.settings.copy()
    }

    /// The discovered candidate with key `key`, if discovery offers one.
    pub fn discovery_candidate(&self, key: &str) -> (r: Option<DiscoveryCandidate>)
        ensures
            match r {
                Some(c) => exists|i: int|
                    0 <= i < self.discovered@.len() && self.discovered@[i] == c && c.key@ == key@
                        && forall|k: int| 0 <= k < i ==> (#[trigger] self.discovered@[k]).key@ != key@,
                None => forall|i: int|
                    0 <= i < self.discovered@.len() ==> (#[trigger] self.discovered@[i]).key@
                        != key@,
            },
    {
        let mut i: usize = 0;
        while i < self.discovered.len()
            invariant
                i <= self.discovered.len(),
                forall|k: int| 0 <= k < i ==> (#[trigger] self.discovered@[k]).key@ != key@,
            decreases self.discovered.len() - i,
        {
            if crate::text::str_equal(self.discovered[i].key.as_str(), key) {
                return Some(self.discovered[i].copy());
            }
            i += 1;
        }
        None
    }
}

// ---------------------------------------------------------------------
// Checking what the user entered
// ---------------------------------------------------------------------

pub open spec fn name_required_message() -> Seq<char> {
    "プロジェクト名を入力してください。"@
}

pub open spec fn command_required_message() -> Seq<char> {
    "起動コマンドを入力してください。"@
}

pub open spec fn directory_missing_message() -> Seq<char> {
    "指定した作業ディレクトリが見つかりません。"@
}

pub open spec fn not_a_directory_message() -> Seq<char> {
    "作業ディレクトリにはフォルダーを指定してください。"@
}

pub open spec fn url_scheme_message() -> Seq<char> {
    "URLはhttp://またはhttps://から入力してください。"@
}

/// The URL as entered, trimmed; a blank URL counts as none.
pub open spec fn trimmed_url(url: Option<String>) -> Option<Seq<char>> {
    match url {
        Some(u) => if trim(u@).len() > 0 {
            Some(trim(u@))
        } else {
            None
        },
        None => None,
    }
}

pub open spec fn url_view(url: Option<String>) -> Option<Seq<char>> {
    match url {
        Some(u) => Some(u@),
        None => None,
    }
}

/// `out` is `raw` with its text fields trimmed and a blank URL dropped.
pub open spec fn normalized_of(out: ProjectInput, raw: ProjectInput) -> bool {
    &&& out.name@ == trim(raw.name@)
    &&& out.directory@ == trim(raw.directory@)
    &&& out.command@ == trim(raw.command@)
    &&& url_view(out.url) == trimmed_url(raw.url)
    &&& out.startup_policy == raw.startup_policy
    &&& out.discovery_key == raw.discovery_key
    &&& out.detected_port == raw.detected_port
    &&& out.external_pid == raw.external_pid
}

pub open spec fn web_url(u: Seq<char>) -> bool {
    has_prefix(u, "http://"@) || has_prefix(u, "https://"@)
}

/// The message that rejects `raw`, given whether its directory exists and
/// is a folder; `None` when it is accepted. The checks run in this order.
pub open spec fn input_rejection(raw: ProjectInput, exists: bool, is_dir: bool) -> Option<
    Seq<char>,
> {
    if trim(raw.name@).len() == 0 {
        Some(name_required_message())
    } else if trim(raw.command@).len() == 0 {
        Some(command_required_message())
    } else if !exists {
        Some(directory_missing_message())
    } else if !is_dir {
        Some(not_a_directory_message())
    } else if trimmed_url(raw.url) is Some && !web_url(trimmed_url(raw.url)->0) {
        Some(url_scheme_message())
    } else {
        None
    }
}

/// `r` is what checking `raw` gives when its directory exists (or not)
/// and is a folder (or not).
pub open spec fn validation(
    raw: ProjectInput,
    r: Result<ProjectInput, String>,
    exists: bool,
    is_dir: bool,
) -> bool {
    match input_rejection(raw, exists, is_dir) {
        Some(m) => r matches Err(e) && e@ == m,
        None => r matches Ok(v) && normalized_of(v, raw),
    }
}

/// Trims the text fields and drops a blank URL.
pub fn normalize_input(input: ProjectInput) -> (r: ProjectInput)
    ensures
        normalized_of(r, input),
{
    let url = match &input.url {
        Some(u) => {
            let t = trim_string(u.as_str());
            if t.as_str().is_empty() {
                None
            } else {
                Some(t)
            }
        },
        None => None,
    };
    ProjectInput {
        name: trim_string(input.name.as_str()),
        directory: trim_string(input.directory.as_str()),
        command: trim_string(input.command.as_str()),
        url,
        startup_policy: input.startup_policy,
        discovery_key: input.discovery_key,
        detected_port: input.detected_port,
        external_pid: input.external_pid,
    }
}

proof fn lemma_trim_start_first(s: Seq<char>)
    ensures
        trim_start(s).len() > 0 ==> !crate::text::is_ws(trim_start(s)[0]),
        trim_start(s).len() <= s.len(),
    decreases s.len(),
{
    if s.len() > 0 && crate::text::is_ws(s[0]) {
        lemma_trim_start_first(s.drop_first());
    }
}

proof fn lemma_trim_end_prefix(s: Seq<char>)
    ensures
        trim_end(s).len() <= s.len(),
        trim_end(s) == s.subrange(0, trim_end(s).len() as int),
        trim_end(s).len() > 0 ==> !crate::text::is_ws(trim_end(s).last()),
    decreases s.len(),
{
    if s.len() > 0 && crate::text::is_ws(s.last()) {
        lemma_trim_end_prefix(s.drop_last());
        assert(s.drop_last().subrange(0, trim_end(s).len() as int) =~= s.subrange(
            0,
            trim_end(s).len() as int,
        ));
    } else {
        assert(s.subrange(0, s.len() as int) =~= s);
    }
}

/// Trimming twice is trimming once.
pub proof fn lemma_trim_idempotent(s: Seq<char>)
    ensures
        trim(trim(s)) == trim(s),
{
    let a = trim_start(s);
    let b = trim_end(a);
    lemma_trim_start_first(s);
    lemma_trim_end_prefix(a);
    if b.len() > 0 {
        assert(b[0] == a[0]);
    }
    assert(trim_start(b) == b);
    assert(trim_end(b) == b);
}

/// Checks a normalized input, given what the file system said of its
/// directory.
pub fn check_input(input: ProjectInput, exists: bool, is_dir: bool) -> (r: Result<
    ProjectInput,
    String,
>)
    requires
        input.name@ == trim(input.name@),
        input.command@ == trim(input.command@),
        input.directory@ == trim(input.directory@),
        url_view(input.url) == trimmed_url(input.url),
    ensures
        validation(input, r, exists, is_dir),
{
    proof {
        lemma_trim_idempotent(input.name@);
        lemma_trim_idempotent(input.command@);
        lemma_trim_idempotent(input.directory@);
        if input.url is Some {
            lemma_trim_idempotent(input.url->0@);
        }
    }
    if input.name.as_str().is_empty() {
        return Err("プロジェクト名を入力してください。".to_string());
    }
    if input.command.as_str().is_empty() {
        return Err("起動コマンドを入力してください。".to_string());
    }
    if !exists {
        return Err("指定した作業ディレクトリが見つかりません。".to_string());
    }
    if !is_dir {
        return Err("作業ディレクトリにはフォルダーを指定してください。".to_string());
    }
    if let Some(url) = &input.url {
        if !(str_starts_with(url.as_str(), "http://") || str_starts_with(url.as_str(), "https://")) {
            return Err("URLはhttp://またはhttps://から入力してください。".to_string());
        }
    }
    Ok(input)
}

/// Trims what the user entered and checks it: a name, a command, an
/// existing folder, and a URL that starts with `http://` or `https://` if
/// one is given. The file system answers whether the folder exists.
pub fn validate_input(input: ProjectInput) -> (r: Result<ProjectInput, String>)
    ensures
        exists|e: bool, d: bool| #[trigger] validation(input, r, e, d),
        trim(input.name@).len() == 0 ==> validation(input, r, true, true),
        trim(input.command@).len() == 0 ==> validation(input, r, true, true),
{
    let ghost raw = input;
    proof {
        lemma_trim_idempotent(raw.name@);
        lemma_trim_idempotent(raw.command@);
        lemma_trim_idempotent(raw.directory@);
        if raw.url is Some {
            lemma_trim_idempotent(raw.url->0@);
        }
    }
    let n = normalize_input(input);
    if n.name.as_str().is_empty() || n.command.as_str().is_empty() {
        let r = check_input(n, true, true);
        assert(validation(raw, r, true, true));
        return r;
    }
    let exists = path_exists(n.directory.as_str());
    let is_dir = if exists { path_is_dir(n.directory.as_str()) } else { false };
    let ghost nv = n;
    let r = check_input(n, exists, is_dir);
    assert(validation(raw, r, exists, is_dir));
    r
}

// ---------------------------------------------------------------------
// Registering, editing and removing projects
// ---------------------------------------------------------------------

/// `r` is an error with message `m`.
pub open spec fn fails_with<T>(r: Result<T, String>, m: Seq<char>) -> bool {
    match r {
        Err(e) => e@ == m,
        Ok(_) => false,
    }
}

pub open spec fn not_found_message() -> Seq<char> {
    "プロジェクトが見つかりません。"@
}

pub open spec fn edit_running_message() -> Seq<char> {
    "実行中のプロジェクトは編集できません。先に停止してください。"@
}

pub open spec fn delete_running_message() -> Seq<char> {
    "実行中のプロジェクトは削除できません。先に停止してください。"@
}

/// Text in the hyphenated lowercase form of a UUID: 36 characters, hyphens
/// at 8, 13, 18 and 23, lowercase hex digits elsewhere.
pub open spec fn uuid_text(s: Seq<char>) -> bool {
    &&& s.len() == 36
    &&& forall|i: int|
        0 <= i < 36 ==> if i == 8 || i == 13 || i == 18 || i == 23 {
            #[trigger] s[i] == '-'
        } else {
            ('0' <= s[i] <= '9') || ('a' <= s[i] <= 'f')
        }
}

/// The log file of project `id` in the data folder `data_dir`:
/// `<data_dir>/logs/<id>.log`, joined as the platform joins paths.
pub open spec fn log_file_path(data_dir: Seq<char>, id: Seq<char>) -> Seq<char> {
    path_join(path_join(data_dir, "logs"@), id + ".log"@)
}

/// A fresh project id: a random UUID in its hyphenated form
/// (`Uuid::new_v4().to_string()`). Its value comes from the operating
/// system's random source; what the crate documents of the form is stated:
/// 36 characters, hyphens at 8, 13, 18 and 23, lowercase hex digits
/// elsewhere.
#[verifier::external_body]
pub(crate) fn new_project_id() -> (r: String)
    ensures
        uuid_text(r@),
{
    uuid::Uuid::new_v4().to_string()
}

/// The process that a new project adopts: the one it names, if alive.
pub open spec fn adopted_pid(input: ProjectInput, alive: bool) -> Option<u32> {
    if alive {
        input.external_pid
    } else {
        None
    }
}

/// What editing project `id` with the checked input `v` at time `now` does,
/// from state `pre` to state `post` with result `r`: it fails without a
/// change when no project has that id or the project is active, and
/// otherwise replaces the first such record with its edited form.
pub open spec fn edit_outcome(
    pre: AppState,
    post: AppState,
    id: Seq<char>,
    v: ProjectInput,
    now: i64,
    r: Result<ProjectRecord, String>,
) -> bool {
    &&& r is Err ==> post == pre
    &&& !has_id(pre.store.projects@, id) ==> fails_with(r, not_found_message()) && post == pre
    &&& forall|i: int| #[trigger]
        first_with_id(pre.store.projects@, id, i) ==> if is_active(pre.store.projects@[i].status) {
            fails_with(r, edit_running_message()) && post == pre
        } else {
            &&& r == Ok::<ProjectRecord, String>(edited_record(pre.store.projects@[i], v, now))
            &&& post.store.projects@ == pre.store.projects@.update(
                i,
                edited_record(pre.store.projects@[i], v, now),
            )
            &&& post.store.settings == pre.store.settings
            &&& post.store.ignored_discovery_keys == pre.store.ignored_discovery_keys
            &&& post.store.schema_version == pre.store.schema_version
            &&& post.discovered == pre.discovered
            &&& post.runtimes == pre.runtimes
            &&& post.quitting == pre.quitting
            &&& post.data_dir == pre.data_dir
        }
}


/// The record that registering `input` creates.
pub open spec fn new_record(
    input: ProjectInput,
    id: String,
    now: i64,
    log_path: String,
    alive: bool,
) -> ProjectRecord {
    let pid = adopted_pid(input, alive);
    ProjectRecord {
        id,
        name: input.name,
        directory: input.directory,
        command: input.command,
        url: input.url,
        startup_policy: input.startup_policy,
        status: if pid is Some {
            ProjectStatus::Running
        } else {
            ProjectStatus::Stopped
        },
        desired_running: pid is Some,
        pid,
        created_at: now,
        updated_at: now,
        last_started_at: if pid is Some {
            Some(now)
        } else {
            None
        },
        last_stopped_at: None,
        last_exit_code: None,
        last_error: None,
        log_path,
        discovery_key: input.discovery_key,
        detected_port: input.detected_port,
        process_origin: if pid is Some {
            ProcessOrigin::External
        } else {
            ProcessOrigin::Manager
        },
    }
}

/// A candidate stays on offer once `p` is registered unless it is `p`'s
/// process or carries `p`'s discovery key.
pub open spec fn keeps_candidate(c: DiscoveryCandidate, p: ProjectRecord) -> bool {
    &&& c.pid != (match p.pid {
        Some(n) => n,
        None => 0,
    })
    &&& !(p.discovery_key is Some && p.discovery_key->0@ == c.key@)
}

pub open spec fn kept_candidates(cs: Seq<DiscoveryCandidate>, p: ProjectRecord) -> Seq<
    DiscoveryCandidate,
>
    decreases cs.len(),
{
    if cs.len() == 0 {
        seq![]
    } else if keeps_candidate(cs.last(), p) {
        kept_candidates(cs.drop_last(), p).push(cs.last())
    } else {
        kept_candidates(cs.drop_last(), p)
    }
}

/// The projects other than those with id `id`.
pub open spec fn without_id(ps: Seq<ProjectRecord>, id: Seq<char>) -> Seq<ProjectRecord>
    decreases ps.len(),
{
    if ps.len() == 0 {
        seq![]
    } else if ps.last().id@ != id {
        without_id(ps.drop_last(), id).push(ps.last())
    } else {
        without_id(ps.drop_last(), id)
    }
}

/// `p` after an edit with `input` at time `now`: the entered fields
/// replaced, a discovery key or port kept unless a new one is given.
pub open spec fn edited_record(p: ProjectRecord, input: ProjectInput, now: i64) -> ProjectRecord {
    ProjectRecord {
        name: input.name,
        directory: input.directory,
        command: input.command,
        url: input.url,
        startup_policy: input.startup_policy,
        discovery_key: if input.discovery_key is Some {
            input.discovery_key
        } else {
            p.discovery_key
        },
        detected_port: if input.detected_port is Some {
            input.detected_port
        } else {
            p.detected_port
        },
        updated_at: now,
        ..p
    }
}

fn key_matches(key: &Option<String>, candidate_key: &String) -> (r: bool)
    ensures
        r == (key is Some && key->0@ == candidate_key@),
{
    match key {
        Some(k) => crate::text::str_equal(k.as_str(), candidate_key.as_str()),
        None => false,
    }
}

/// `p` is the project that registering the checked input `v` at time
/// `now` creates, and `post` the state after it: a fresh UUID id, its log
/// file in the data folder's `logs` folder, the record `new_record` makes,
/// added at the end; candidates it covers are no longer offered; nothing
/// else changes.
pub open spec fn registered(
    pre: AppState,
    post: AppState,
    v: ProjectInput,
    p: ProjectRecord,
    now: i64,
    alive: bool,
) -> bool {
    &&& uuid_text(p.id@)
    &&& p.log_path@ == log_file_path(pre.data_dir@, p.id@)
    &&& p == new_record(v, p.id, now, p.log_path, alive)
    &&& post.store.projects@ == pre.store.projects@.push(p)
    &&& post.discovered@ == kept_candidates(pre.discovered@, p)
    &&& post.store.settings == pre.store.settings
    &&& post.store.ignored_discovery_keys == pre.store.ignored_discovery_keys
    &&& post.store.schema_version == pre.store.schema_version
    &&& post.runtimes == pre.runtimes
    &&& post.quitting == pre.quitting
    &&& post.data_dir == pre.data_dir
}

impl AppState {
    /// Stops offering the candidates that the newly registered `project`
    /// covers.
    pub fn remove_discovered_for_project(&mut self, project: &ProjectRecord)
        ensures
            final(self).discovered@ == kept_candidates(old(self).discovered@, *project),
            final(self).store == old(self).store,
            final(self).runtimes == old(self).runtimes,
            final(self).data_dir == old(self).data_dir,
            final(self).quitting == old(self).quitting,
    {
        let pid = match project.pid {
            Some(n) => n,
            None => 0,
        };
        let mut kept: Vec<DiscoveryCandidate> = Vec::new();
        let mut i: usize = 0;
        while i < self.discovered.len()
            invariant
                i <= self.discovered.len(),
                pid == (match project.pid {
                    Some(n) => n,
                    None => 0,
                }),
                kept@ == kept_candidates(self.discovered@.subrange(0, i as int), *project),
            decreases self.discovered.len() - i,
        {
            assert(self.discovered@.subrange(0, i + 1).drop_last() =~= self.discovered@.subrange(
                0,
                i as int,
            ));
            let c = &self.discovered[i];
            if c.pid != pid && !key_matches(&project.discovery_key, &c.key) {
                kept.push(c.copy());
            }
            i += 1;
        }
        assert(self.discovered@.subrange(0, self.discovered.len() as int) =~= self.discovered@);
        self.discovered = kept;
    }

    /// The log file of project `id`: `<data_dir>/logs/<id>.log`.
    pub fn project_log_path(&self, id: &String) -> (r: String)
        ensures
            r@ == log_file_path(self.data_dir@, id@),
    {
        let logs = join_path(self.data_dir.as_str(), "logs");
        let mut file = id.clone();
        file.append(".log");
        join_path(logs.as_str(), file.as_str())
    }

    /// Registers a checked `input` under `id` at time `now`, with its log at
    /// `log_path`. When the input names a process that is alive
    /// (`external_alive`), the project adopts it and counts as running.
    pub fn create_project_with(
        &mut self,
        input: ProjectInput,
        id: String,
        now: i64,
        log_path: String,
        external_alive: bool,
    ) -> (r: ProjectRecord)
        ensures
            r == new_record(input, id, now, log_path, external_alive),
            final(self).store.projects@ == old(self).store.projects@.push(r),
            final(self).discovered@ == kept_candidates(old(self).discovered@, r),
            final(self).store.settings == old(self).store.settings,
            final(self).store.ignored_discovery_keys == old(self).store.ignored_discovery_keys,
            final(self).store.schema_version == old(self).store.schema_version,
            final(self).runtimes == old(self).runtimes,
            final(self).quitting == old(self).quitting,
            final(self).data_dir == old(self).data_dir,
    {
        let pid = if external_alive { input.external_pid } else { None };
        let project = ProjectRecord {
            id,
            name: input.name,
            directory: input.directory,
            command: input.command,
            url: input.url,
            startup_policy: input.startup_policy,
            status: if pid.is_some() {
                ProjectStatus::Running
            } else {
                ProjectStatus::Stopped
            },
            desired_running: pid.is_some(),
            pid,
            created_at: now,
            updated_at: now,
            last_started_at: if pid.is_some() { Some(now) } else { None },
            last_stopped_at: None,
            last_exit_code: None,
            last_error: None,
            log_path,
            discovery_key: input.discovery_key,
            detected_port: input.detected_port,
            process_origin: if pid.is_some() {
                ProcessOrigin::External
            } else {
                ProcessOrigin::Manager
            },
        };
        self.store.projects.push(project.copy());
        self.remove_discovered_for_project(&project);
        project
    }

    /// Registers a project: checks the input, gives it a fresh id and a log
    /// file under the data folder, and records it (see
    /// `create_project_with`). A rejected input changes nothing.
    pub fn create_project(&mut self, input: ProjectInput, external_alive: bool) -> (r: Result<
        ProjectRecord,
        String,
    >)
        ensures
            exists|e: bool, d: bool, c: Result<ProjectInput, String>| #[trigger]
                validation(input, c, e, d) && match c {
                    Err(m) => r == Err::<ProjectRecord, String>(m) && *final(self) == *old(self),
                    Ok(v) => r matches Ok(p) && exists|now: i64| #[trigger]
                        registered(*old(self), *final(self), v, p, now, external_alive),
                },
    {
        let checked = validate_input(input);
        let v = match checked {
            Ok(v) => v,
            Err(e) => return Err(e),
        };
        let now = now_ms();
        let id = new_project_id();
        let log_path = self.project_log_path(&id);
        let p = self.create_project_with(v, id, now, log_path, external_alive);
        assert(registered(*old(self), *self, v, p, now, external_alive));
        Ok(p)
    }

    /// Applies a checked edit to project `id` at time `now`. A project
    /// that is running, starting or stopping cannot be edited.
    pub fn update_project_with(&mut self, id: &str, input: ProjectInput, now: i64) -> (r: Result<
        ProjectRecord,
        String,
    >)
        ensures
            edit_outcome(*old(self), *final(self), id@, input, now, r),
    {
        let i = match find_project(&self.store.projects, id) {
            Some(i) => i,
            None => return Err("プロジェクトが見つかりません。".to_string()),
        };
        if status_is_active(self.store.projects[i].status) {
            return Err("実行中のプロジェクトは編集できません。先に停止してください。".to_string());
        }
        let mut p = self.store.projects[i].copy();
        p.name = input.name;
        p.directory = input.directory;
        p.command = input.command;
        p.url = input.url;
        p.startup_policy = input.startup_policy;
        if input.discovery_key.is_some() {
            p.discovery_key = input.discovery_key;
        }
        if input.detected_port.is_some() {
            p.detected_port = input.detected_port;
        }
        p.updated_at = now;
        let result = p.copy();
        self.store.projects.set(i, p);
        Ok(result)
    }

    /// Edits project `id`: checks the input first, then applies it at time
    /// `now` (see `update_project_with`).
    pub fn update_project(&mut self, id: &str, input: ProjectInput, now: i64) -> (r: Result<
        ProjectRecord,
        String,
    >)
        ensures
            exists|e: bool, d: bool, c: Result<ProjectInput, String>| #[trigger]
                validation(input, c, e, d) && match c {
                    Err(m) => r == Err::<ProjectRecord, String>(m) && *final(self) == *old(self),
                    Ok(v) => edit_outcome(*old(self), *final(self), id@, v, now, r),
                },
            trim(input.name@).len() == 0 ==> fails_with(r, name_required_message())
                && *final(self) == *old(self),
    {
        let checked = validate_input(input);
        match checked {
            Ok(v) => self.update_project_with(id, v, now),
            Err(e) => Err(e),
        }
    }

    /// Removes project `id` (every record with that id). A project that is
    /// running, starting or stopping cannot be removed.
    pub fn delete_project(&mut self, id: &str) -> (r: Result<(), String>)
        ensures
            r is Err ==> *final(self) == *old(self),
            !has_id(old(self).store.projects@, id@) ==> fails_with(r, not_found_message())
                && *final(self) == *old(self),
            forall|i: int| #[trigger]
                first_with_id(old(self).store.projects@, id@, i) ==> if is_active(
                    old(self).store.projects@[i].status,
                ) {
                    fails_with(r, delete_running_message()) && *final(self) == *old(self)
                } else {
                    &&& r is Ok
                    &&& final(self).store.projects@ == without_id(old(self).store.projects@, id@)
                    &&& final(self).store.settings == old(self).store.settings
                    &&& final(self).store.ignored_discovery_keys
                        == old(self).store.ignored_discovery_keys
                    &&& final(self).discovered == old(self).discovered
                    &&& final(self).runtimes == old(self).runtimes
                    &&& final(self).quitting == old(self).quitting
                    &&& final(self).store.schema_version == old(self).store.schema_version
                    &&& final(self).data_dir == old(self).data_dir
                },
    {
        let i = match find_project(&self.store.projects, id) {
            Some(i) => i,
            None => return Err("プロジェクトが見つかりません。".to_string()),
        };
        if status_is_active(self.store.projects[i].status) {
            return Err("実行中のプロジェクトは削除できません。先に停止してください。".to_string());
        }
        let mut kept: Vec<ProjectRecord> = Vec::new();
        let mut k: usize = 0;
        while k < self.store.projects.len()
            invariant
                k <= self.store.projects.len(),
                kept@ == without_id(self.store.projects@.subrange(0, k as int), id@),
            decreases self.store.projects.len() - k,
        {
            assert(self.store.projects@.subrange(0, k + 1).drop_last()
                =~= self.store.projects@.subrange(0, k as int));
            if !crate::text::str_equal(self.store.projects[k].id.as_str(), id) {
                kept.push(self.store.projects[k].copy());
            }
            k += 1;
        }
        assert(self.store.projects@.subrange(0, self.store.projects.len() as int)
            =~= self.store.projects@);
        self.store.projects = kept;
        Ok(())
    }
}

// ---------------------------------------------------------------------
// Launched processes, looked up by project id
// ---------------------------------------------------------------------

/// The tracked launch of project `id`: the latest entry with that id.
pub open spec fn runtime_entry(rs: Seq<RuntimeProcess>, id: Seq<char>) -> Option<(u32, Seq<char>)>
    decreases rs.len(),
{
    if rs.len() == 0 {
        None
    } else if rs.last().id@ == id {
        Some((rs.last().pid, rs.last().generation@))
    } else {
        runtime_entry(rs.drop_last(), id)
    }
}

pub open spec fn runtimes_without(rs: Seq<RuntimeProcess>, id: Seq<char>) -> Seq<RuntimeProcess>
    decreases rs.len(),
{
    if rs.len() == 0 {
        seq![]
    } else if rs.last().id@ != id {
        runtimes_without(rs.drop_last(), id).push(rs.last())
    } else {
        runtimes_without(rs.drop_last(), id)
    }
}

/// At most one launched process is recorded per project: no entry's id
/// occurs earlier in the list.
pub open spec fn runtime_ids_unique(rs: Seq<RuntimeProcess>) -> bool
    decreases rs.len(),
{
    rs.len() == 0 || (runtime_ids_unique(rs.drop_last()) && runtime_entry(
        rs.drop_last(),
        rs.last().id@,
    ) is None)
}

proof fn lemma_runtimes_without_unique(rs: Seq<RuntimeProcess>, id: Seq<char>)
    requires
        runtime_ids_unique(rs),
    ensures
        runtime_ids_unique(runtimes_without(rs, id)),
    decreases rs.len(),
{
    if rs.len() > 0 {
        lemma_runtimes_without_unique(rs.drop_last(), id);
        if rs.last().id@ != id {
            let w = runtimes_without(rs, id);
            assert(w.drop_last() == runtimes_without(rs.drop_last(), id));
            lemma_runtimes_without(rs.drop_last(), id, rs.last().id@);
        }
    }
}

proof fn lemma_runtimes_without(rs: Seq<RuntimeProcess>, id: Seq<char>, x: Seq<char>)
    ensures
        runtime_entry(runtimes_without(rs, id), x) == if x == id {
            None
        } else {
            runtime_entry(rs, x)
        },
    decreases rs.len(),
{
    if rs.len() > 0 {
        lemma_runtimes_without(rs.drop_last(), id, x);
        if rs.last().id@ != id {
            assert(runtimes_without(rs, id).drop_last() == runtimes_without(rs.drop_last(), id));
        }
    }
}

fn remove_runtime(rs: &Vec<RuntimeProcess>, id: &str) -> (r: Vec<RuntimeProcess>)
    ensures
        runtime_ids_unique(rs@) ==> runtime_ids_unique(r@),
        forall|x: Seq<char>| #[trigger]
            runtime_entry(r@, x) == if x == id@ {
                None
            } else {
                runtime_entry(rs@, x)
            },
{
    let mut kept: Vec<RuntimeProcess> = Vec::new();
    let mut i: usize = 0;
    while i < rs.len()
        invariant
            i <= rs.len(),
            kept@ == runtimes_without(rs@.subrange(0, i as int), id@),
        decreases rs.len() - i,
    {
        assert(rs@.subrange(0, i + 1).drop_last() =~= rs@.subrange(0, i as int));
        if !crate::text::str_equal(rs[i].id.as_str(), id) {
            let e = RuntimeProcess {
                id: rs[i].id.clone(),
                pid: rs[i].pid,
                generation: rs[i].generation.clone(),
            };
            assert(e == rs@[i as int]);
            kept.push(e);
        }
        i += 1;
    }
    assert(rs@.subrange(0, rs.len() as int) =~= rs@);
    assert forall|x: Seq<char>| #[trigger]
        runtime_entry(kept@, x) == if x == id@ {
            None
        } else {
            runtime_entry(rs@, x)
        } by {
        lemma_runtimes_without(rs@, id@, x);
    }
    proof {
        if runtime_ids_unique(rs@) {
            lemma_runtimes_without_unique(rs@, id@);
        }
    }
    kept
}

fn find_runtime(rs: &Vec<RuntimeProcess>, id: &str) -> (r: Option<(u32, String)>)
    ensures
        match r {
            Some((pid, g)) => runtime_entry(rs@, id@) == Some((pid, g@)),
            None => runtime_entry(rs@, id@) is None,
        },
{
    let mut i = rs.len();
    assert(rs@.subrange(0, i as int) =~= rs@);
    while i > 0
        invariant
            i <= rs.len(),
            runtime_entry(rs@, id@) == runtime_entry(rs@.subrange(0, i as int), id@),
        decreases i,
    {
        assert(rs@.subrange(0, i as int).drop_last() =~= rs@.subrange(0, i - 1));
        if crate::text::str_equal(rs[i - 1].id.as_str(), id) {
            return Some((rs[i - 1].pid, rs[i - 1].generation.clone()));
        }
        i -= 1;
    }
    None
}

// ---------------------------------------------------------------------
// Starting, stopping, and processes that end
// ---------------------------------------------------------------------

pub open spec fn quitting_message() -> Seq<char> {
    "Vibe Managerを終了中です。"@
}

/// What the caller does after `start_project`.
#[derive(Debug)]
pub enum StartStep {
    /// The project's recorded process is alive; it counts as running again.
    AlreadyRunning,
    /// The project is already running or starting; nothing to do.
    AlreadyActive,
    /// Launch this project's command; the record is marked as starting.
    Launch(ProjectRecord),
}

pub open spec fn revived(p: ProjectRecord) -> ProjectRecord {
    ProjectRecord { status: ProjectStatus::Running, desired_running: true, ..p }
}

pub open spec fn starting(p: ProjectRecord, now: i64) -> ProjectRecord {
    ProjectRecord {
        status: ProjectStatus::Starting,
        desired_running: true,
        pid: None,
        last_error: None,
        updated_at: now,
        ..p
    }
}

pub open spec fn launched(p: ProjectRecord, pid: u32, now: i64) -> ProjectRecord {
    ProjectRecord {
        status: ProjectStatus::Running,
        desired_running: true,
        pid: Some(pid),
        process_origin: ProcessOrigin::Manager,
        last_started_at: Some(now),
        last_exit_code: None,
        last_error: None,
        updated_at: now,
        ..p
    }
}

pub open spec fn stopping(p: ProjectRecord, preserve_desired: bool, now: i64) -> ProjectRecord {
    ProjectRecord {
        status: ProjectStatus::Stopping,
        desired_running: preserve_desired,
        updated_at: now,
        ..p
    }
}

pub open spec fn stopped(p: ProjectRecord, preserve_desired: bool, now: i64) -> ProjectRecord {
    ProjectRecord {
        status: if preserve_desired {
            ProjectStatus::RestorePending
        } else {
            ProjectStatus::Stopped
        },
        desired_running: preserve_desired,
        pid: None,
        last_stopped_at: Some(now),
        updated_at: now,
        ..p
    }
}

/// `q` is `p` marked as crashed at `now` with `message`, its exit code
/// recorded when `exit_code` says one (a failed launch keeps the old code
/// and stop time: `keep_exit` is then true).
pub open spec fn crashed_as(
    q: ProjectRecord,
    p: ProjectRecord,
    exit_code: Option<i32>,
    message: Seq<char>,
    now: i64,
    keep_exit: bool,
) -> bool {
    &&& q.last_error matches Some(e) && e@ == message
    &&& q == ProjectRecord {
        status: ProjectStatus::Crashed,
        desired_running: true,
        pid: None,
        last_exit_code: if keep_exit {
            p.last_exit_code
        } else {
            exit_code
        },
        last_error: q.last_error,
        last_stopped_at: if keep_exit {
            p.last_stopped_at
        } else {
            Some(now)
        },
        updated_at: now,
        ..p
    }
}

/// Only record `i` changed, from `p` to `q`; nothing else in the state.
pub open spec fn only_record_changed(before: AppState, after: AppState, i: int, q: ProjectRecord) -> bool {
    &&& after.store.projects@ == before.store.projects@.update(i, q)
    &&& after.store.settings == before.store.settings
    &&& after.store.ignored_discovery_keys == before.store.ignored_discovery_keys
    &&& after.store.schema_version == before.store.schema_version
    &&& after.discovered == before.discovered
    &&& after.quitting == before.quitting
    &&& after.data_dir == before.data_dir
}

impl AppState {
    /// The process id recorded for project `id` (its first record).
    pub fn recorded_pid(&self, id: &str) -> (r: Option<u32>)
        ensures
            !has_id(self.store.projects@, id@) ==> r is None,
            forall|i: int| #[trigger]
                first_with_id(self.store.projects@, id@, i) ==> r == self.store.projects@[i].pid,
    {
        match find_project(&self.store.projects, id) {
            Some(i) => self.store.projects[i].pid,
            None => None,
        }
    }

    /// Decides how to start project `id` at time `now`; `pid_alive` tells
    /// whether its recorded process (if any) is still alive. A manager that
    /// is quitting starts nothing.
    pub fn start_project(&mut self, id: &str, pid_alive: bool, now: i64) -> (r: Result<
        StartStep,
        String,
    >)
        ensures
            r is Err ==> *final(self) == *old(self),
            final(self).runtimes == old(self).runtimes,
            old(self).quitting ==> fails_with(r, quitting_message()),
            !old(self).quitting && !has_id(old(self).store.projects@, id@) ==> fails_with(
                r,
                not_found_message(),
            ),
            forall|i: int| #[trigger]
                first_with_id(old(self).store.projects@, id@, i) && !old(self).quitting ==> {
                    let p = old(self).store.projects@[i];
                    if p.pid is Some && pid_alive {
                        r matches Ok(StartStep::AlreadyRunning) && only_record_changed(
                            *old(self),
                            *final(self),
                            i,
                            revived(p),
                        )
                    } else if p.status == ProjectStatus::Running || p.status
                        == ProjectStatus::Starting {
                        r matches Ok(StartStep::AlreadyActive) && *final(self) == *old(self)
                    } else {
                        r == Ok::<StartStep, String>(StartStep::Launch(starting(p, now)))
                            && only_record_changed(*old(self), *final(self), i, starting(p, now))
                    }
                },
    {
        if self.quitting {
            return Err("Vibe Managerを終了中です。".to_string());
        }
        let i = match find_project(&self.store.projects, id) {
            Some(i) => i,
            None => return Err("プロジェクトが見つかりません。".to_string()),
        };
        let mut p = self.store.projects[i].copy();
        if p.pid.is_some() && pid_alive {
            p.status = ProjectStatus::Running;
            p.desired_running = true;
            self.store.projects.set(i, p);
            return Ok(StartStep::AlreadyRunning);
        }
        if p.status == ProjectStatus::Running || p.status == ProjectStatus::Starting {
            return Ok(StartStep::AlreadyActive);
        }
        p.status = ProjectStatus::Starting;
        p.desired_running = true;
        p.pid = None;
        p.last_error = None;
        p.updated_at = now;
        let launch = p.copy();
        self.store.projects.set(i, p);
        Ok(StartStep::Launch(launch))
    }

    /// Records that project `id`'s command was launched as process `pid`
    /// (launch `generation`) at time `now`. The launch is tracked even if
    /// the project has meanwhile been removed.
    pub fn record_launch(&mut self, id: &str, pid: u32, generation: String, now: i64) -> (r: Result<
        (),
        String,
    >)
        ensures
            runtime_ids_unique(old(self).runtimes@) ==> runtime_ids_unique(final(self).runtimes@),
            forall|x: Seq<char>| #[trigger]
                runtime_entry(final(self).runtimes@, x) == if x == id@ {
                    Some((pid, generation@))
                } else {
                    runtime_entry(old(self).runtimes@, x)
                },
            !has_id(old(self).store.projects@, id@) ==> fails_with(r, not_found_message())
                && final(self).store == old(self).store,
            forall|i: int| #[trigger]
                first_with_id(old(self).store.projects@, id@, i) ==> r is Ok
                    && only_record_changed(
                    *old(self),
                    *final(self),
                    i,
                    launched(old(self).store.projects@[i], pid, now),
                ),
            final(self).discovered == old(self).discovered,
            final(self).quitting == old(self).quitting,
            final(self).data_dir == old(self).data_dir,
    {
        let ghost g = generation@;
        let mut rs = remove_runtime(&self.runtimes, id);
        let ghost before = rs@;
        let entry = RuntimeProcess { id: id.to_string(), pid, generation };
        assert(entry.id@ == id@ && entry.generation@ == g);
        rs.push(entry);
        assert(rs@.drop_last() == before);
        assert(runtime_entry(before, id@) is None);
        assert forall|x: Seq<char>| #[trigger]
            runtime_entry(rs@, x) == if x == id@ {
                Some((pid, g))
            } else {
                runtime_entry(old(self).runtimes@, x)
            } by {
            assert(rs@.last() == entry);
            assert(runtime_entry(before, x) == if x == id@ {
                None
            } else {
                runtime_entry(old(self).runtimes@, x)
            });
            assert(runtime_entry(rs@, x) == if entry.id@ == x {
                Some((entry.pid, entry.generation@))
            } else {
                runtime_entry(before, x)
            });
        }
        self.runtimes = rs;
        let i = match find_project(&self.store.projects, id) {
            Some(i) => i,
            None => return Err("プロジェクトが見つかりません。".to_string()),
        };
        let mut p = self.store.projects[i].copy();
        p.status = ProjectStatus::Running;
        p.desired_running = true;
        p.pid = Some(pid);
        p.process_origin = ProcessOrigin::Manager;
        p.last_started_at = Some(now);
        p.last_exit_code = None;
        p.last_error = None;
        p.updated_at = now;
        self.store.projects.set(i, p);
        Ok(())
    }

    /// Marks project `id` as crashed because its command could not be
    /// launched; it still wants to run. An unknown id changes nothing.
    pub fn mark_start_failed(&mut self, id: &str, message: &str, now: i64)
        ensures
            !has_id(old(self).store.projects@, id@) ==> *final(self) == *old(self),
            forall|i: int| #[trigger]
                first_with_id(old(self).store.projects@, id@, i) ==> {
                    &&& crashed_as(
                        final(self).store.projects@[i],
                        old(self).store.projects@[i],
                        None,
                        message@,
                        now,
                        true,
                    )
                    &&& only_record_changed(
                        *old(self),
                        *final(self),
                        i,
                        final(self).store.projects@[i],
                    )
                },
            final(self).runtimes == old(self).runtimes,
            final(self).discovered == old(self).discovered,
            final(self).quitting == old(self).quitting,
            final(self).data_dir == old(self).data_dir,
    {
        if let Some(i) = find_project(&self.store.projects, id) {
            let mut p = self.store.projects[i].copy();
            p.status = ProjectStatus::Crashed;
            p.desired_running = true;
            p.pid = None;
            p.last_error = Some(message.to_string());
            p.updated_at = now;
            self.store.projects.set(i, p);
        }
    }

    /// First half of stopping project `id` at time `now`: marks it as
    /// stopping and names the process to end, the recorded one or else the
    /// tracked launch. `preserve_desired` keeps the wish that it run.
    pub fn begin_stop(&mut self, id: &str, preserve_desired: bool, now: i64) -> (r: Result<
        Option<u32>,
        String,
    >)
        ensures
            final(self).runtimes == old(self).runtimes,
            !has_id(old(self).store.projects@, id@) ==> fails_with(r, not_found_message())
                && *final(self) == *old(self),
            forall|i: int| #[trigger]
                first_with_id(old(self).store.projects@, id@, i) ==> {
                    let p = old(self).store.projects@[i];
                    &&& r == Ok::<Option<u32>, String>(
                        if p.pid is Some {
                            p.pid
                        } else {
                            match runtime_entry(old(self).runtimes@, id@) {
                                Some((n, _)) => Some(n),
                                None => None,
                            }
                        },
                    )
                    &&& only_record_changed(
                        *old(self),
                        *final(self),
                        i,
                        stopping(p, preserve_desired, now),
                    )
                },
    {
        let i = match find_project(&self.store.projects, id) {
            Some(i) => i,
            None => return Err("プロジェクトが見つかりません。".to_string()),
        };
        let mut p = self.store.projects[i].copy();
        let pid = match p.pid {
            Some(n) => Some(n),
            None => match find_runtime(&self.runtimes, id) {
                Some((n, _)) => Some(n),
                None => None,
            },
        };
        p.status = ProjectStatus::Stopping;
        p.desired_running = preserve_desired;
        p.updated_at = now;
        self.store.projects.set(i, p);
        Ok(pid)
    }

    /// Second half of stopping project `id`, once its process was told to
    /// end: forgets the launch, and marks the project stopped, or waiting
    /// to be restored when `preserve_desired`.
    pub fn finish_stop(&mut self, id: &str, preserve_desired: bool, now: i64) -> (r: Result<
        (),
        String,
    >)
        ensures
            runtime_ids_unique(old(self).runtimes@) ==> runtime_ids_unique(final(self).runtimes@),
            forall|x: Seq<char>| #[trigger]
                runtime_entry(final(self).runtimes@, x) == if x == id@ {
                    None
                } else {
                    runtime_entry(old(self).runtimes@, x)
                },
            !has_id(old(self).store.projects@, id@) ==> fails_with(r, not_found_message())
                && final(self).store == old(self).store,
            forall|i: int| #[trigger]
                first_with_id(old(self).store.projects@, id@, i) ==> r is Ok
                    && only_record_changed(
                    *old(self),
                    *final(self),
                    i,
                    stopped(old(self).store.projects@[i], preserve_desired, now),
                ),
            final(self).discovered == old(self).discovered,
            final(self).quitting == old(self).quitting,
            final(self).data_dir == old(self).data_dir,
    {
        self.runtimes = remove_runtime(&self.runtimes, id);
        let i = match find_project(&self.store.projects, id) {
            Some(i) => i,
            None => return Err("プロジェクトが見つかりません。".to_string()),
        };
        let mut p = self.store.projects[i].copy();
        p.status = if preserve_desired {
            ProjectStatus::RestorePending
        } else {
            ProjectStatus::Stopped
        };
        p.desired_running = preserve_desired;
        p.pid = None;
        p.last_stopped_at = Some(now);
        p.updated_at = now;
        self.store.projects.set(i, p);
        Ok(())
    }

    /// Marks project `id` as crashed because its process ended without
    /// being asked to, unless it is stopping or stopped. Returns whether
    /// the dashboard must be refreshed (always, except in that case).
    pub fn mark_unexpected_exit(
        &mut self,
        id: &str,
        exit_code: Option<i32>,
        message: &str,
        now: i64,
    ) -> (r: bool)
        ensures
            final(self).runtimes == old(self).runtimes,
            final(self).discovered == old(self).discovered,
            final(self).quitting == old(self).quitting,
            final(self).data_dir == old(self).data_dir,
            !has_id(old(self).store.projects@, id@) ==> r && *final(self) == *old(self),
            forall|i: int| #[trigger]
                first_with_id(old(self).store.projects@, id@, i) ==> {
                    let p = old(self).store.projects@[i];
                    if p.status == ProjectStatus::Stopping || p.status == ProjectStatus::Stopped {
                        !r && *final(self) == *old(self)
                    } else {
                        &&& r
                        &&& crashed_as(
                            final(self).store.projects@[i],
                            p,
                            exit_code,
                            message@,
                            now,
                            false,
                        )
                        &&& only_record_changed(
                            *old(self),
                            *final(self),
                            i,
                            final(self).store.projects@[i],
                        )
                    }
                },
    {
        if let Some(i) = find_project(&self.store.projects, id) {
            let mut p = self.store.projects[i].copy();
            if p.status == ProjectStatus::Stopping || p.status == ProjectStatus::Stopped {
                return false;
            }
            p.status = ProjectStatus::Crashed;
            p.desired_running = true;
            p.pid = None;
            p.last_exit_code = exit_code;
            p.last_error = Some(message.to_string());
            p.last_stopped_at = Some(now);
            p.updated_at = now;
            self.store.projects.set(i, p);
        }
        true
    }
}

// ---------------------------------------------------------------------
// Processes that end, quitting, and the first look after a restart
// ---------------------------------------------------------------------

/// How a launched process ended, as waiting for it reported.
#[derive(Debug)]
pub enum ChildExit {
    /// It exited, with this code if it had one, successfully or not.
    Status { code: Option<i32>, success: bool },
    /// Its exit status could not be read; `detail` says why.
    WaitFailed { detail: String },
}

pub open spec fn exit_message(e: ChildExit) -> Seq<char> {
    match e {
        ChildExit::Status { success, .. } => if success {
            "プロセスが終了しました。"@
        } else {
            "プロセスがエラー終了しました。"@
        },
        ChildExit::WaitFailed { detail } => "終了状態を取得できません: "@ + detail@,
    }
}

pub open spec fn exit_code_of(e: ChildExit) -> Option<i32> {
    match e {
        ChildExit::Status { code, .. } => code,
        ChildExit::WaitFailed { .. } => None,
    }
}

/// A project as quitting leaves it: an active one no longer runs, and
/// waits to be restored if it wanted to run.
pub open spec fn exit_record(p: ProjectRecord, now: i64) -> ProjectRecord {
    if is_active(p.status) {
        ProjectRecord {
            status: if p.desired_running {
                ProjectStatus::RestorePending
            } else {
                ProjectStatus::Stopped
            },
            pid: None,
            updated_at: now,
            ..p
        }
    } else {
        p
    }
}

/// The (id, pid) of every active project that has a process.
pub open spec fn active_pids(ps: Seq<ProjectRecord>) -> Seq<(Seq<char>, u32)>
    decreases ps.len(),
{
    if ps.len() == 0 {
        seq![]
    } else if is_active(ps.last().status) && ps.last().pid is Some {
        active_pids(ps.drop_last()).push((ps.last().id@, ps.last().pid->0))
    } else {
        active_pids(ps.drop_last())
    }
}

pub open spec fn pairs_view(v: Seq<(String, u32)>) -> Seq<(Seq<char>, u32)> {
    v.map_values(|e: (String, u32)| (e.0@, e.1))
}

/// A project as the manager finds it after starting: running again if its
/// process is among `alive`, else no longer active, and waiting to be
/// restored if it wanted to run.
pub open spec fn relaunch_record(p: ProjectRecord, alive: Seq<u32>) -> ProjectRecord {
    if p.pid is Some && alive.contains(p.pid->0) {
        ProjectRecord { status: ProjectStatus::Running, desired_running: true, ..p }
    } else if is_active(p.status) {
        ProjectRecord {
            pid: None,
            status: if p.desired_running {
                ProjectStatus::RestorePending
            } else {
                ProjectStatus::Stopped
            },
            ..p
        }
    } else {
        p
    }
}

/// The (id, pid) of every running project with a process that the manager
/// did not launch in this session (it watches those by polling).
pub open spec fn detached(ps: Seq<ProjectRecord>, rs: Seq<RuntimeProcess>) -> Seq<(Seq<char>, u32)>
    decreases ps.len(),
{
    if ps.len() == 0 {
        seq![]
    } else if ps.last().status == ProjectStatus::Running && runtime_entry(rs, ps.last().id@) is None
        && ps.last().pid is Some {
        detached(ps.drop_last(), rs).push((ps.last().id@, ps.last().pid->0))
    } else {
        detached(ps.drop_last(), rs)
    }
}

fn contains_pid(v: &Vec<u32>, pid: u32) -> (r: bool)
    ensures
        r == v@.contains(pid),
{
    let mut i: usize = 0;
    while i < v.len()
        invariant
            i <= v.len(),
            forall|k: int| 0 <= k < i ==> v@[k] != pid,
        decreases v.len() - i,
    {
        if v[i] == pid {
            return true;
        }
        i += 1;
    }
    false
}

impl AppState {
    /// Project `id`'s launch `generation` ended with `exit` at time `now`.
    /// A stale generation changes nothing. Otherwise the launch is
    /// forgotten and, unless the manager is quitting, the project is marked
    /// as crashed (see `mark_unexpected_exit`). Returns whether the
    /// dashboard must be refreshed.
    pub fn child_exited(&mut self, id: &str, generation: &str, exit: ChildExit, now: i64) -> (r:
        bool)
        ensures
            runtime_ids_unique(old(self).runtimes@) ==> runtime_ids_unique(final(self).runtimes@),
            !(runtime_entry(old(self).runtimes@, id@) matches Some((_, g)) && g == generation@)
                ==> !r && *final(self) == *old(self),
            (runtime_entry(old(self).runtimes@, id@) matches Some((_, g)) && g == generation@)
                ==> {
                &&& forall|x: Seq<char>| #[trigger]
                    runtime_entry(final(self).runtimes@, x) == if x == id@ {
                        None
                    } else {
                        runtime_entry(old(self).runtimes@, x)
                    }
                &&& final(self).discovered == old(self).discovered
                &&& final(self).quitting == old(self).quitting
                &&& final(self).data_dir == old(self).data_dir
                &&& old(self).quitting ==> !r && final(self).store == old(self).store
                &&& !old(self).quitting && !has_id(old(self).store.projects@, id@) ==> r
                    && final(self).store == old(self).store
                &&& forall|i: int| #[trigger]
                    first_with_id(old(self).store.projects@, id@, i) && !old(self).quitting ==> {
                        let p = old(self).store.projects@[i];
                        if p.status == ProjectStatus::Stopping || p.status
                            == ProjectStatus::Stopped {
                            !r && final(self).store == old(self).store
                        } else {
                            &&& r
                            &&& crashed_as(
                                final(self).store.projects@[i],
                                p,
                                exit_code_of(exit),
                                exit_message(exit),
                                now,
                                false,
                            )
                            &&& final(self).store.projects@ == old(self).store.projects@.update(
                                i,
                                final(self).store.projects@[i],
                            )
                            &&& final(self).store.settings == old(self).store.settings
                            &&& final(self).store.ignored_discovery_keys
                                == old(self).store.ignored_discovery_keys
                            &&& final(self).store.schema_version == old(self).store.schema_version
                        }
                    }
            },
    {
        let current = match find_runtime(&self.runtimes, id) {
            Some((_, g)) => crate::text::str_equal(g.as_str(), generation),
            None => false,
        };
        if !current {
            return false;
        }
        self.runtimes = remove_runtime(&self.runtimes, id);
        if self.quitting {
            return false;
        }
        let ghost mid = *self;
        assert(mid.store == old(self).store);
        let ghost msg = exit_message(exit);
        let ghost code_spec = exit_code_of(exit);
        let (code, message) = match exit {
            ChildExit::Status { code, success } => (
                code,
                if success {
                    "プロセスが終了しました。".to_string()
                } else {
                    "プロセスがエラー終了しました。".to_string()
                },
            ),
            ChildExit::WaitFailed { detail } => {
                let mut m = "終了状態を取得できません: ".to_string();
                m.append(detail.as_str());
                (None, m)
            },
        };
        assert(message@ == msg && code == code_spec);
        self.mark_unexpected_exit(id, code, message.as_str(), now)
    }

    /// Prepares to quit at time `now`: the manager starts quitting, every
    /// active project is marked as no longer running (waiting to be
    /// restored if it wanted to run), and no launch is tracked any more.
    /// Returns the (id, pid) of the processes to end, or `None` when the
    /// manager was already quitting, which changes nothing.
    pub fn prepare_for_exit(&mut self, now: i64) -> (r: Option<Vec<(String, u32)>>)
        ensures
            old(self).quitting ==> r is None && *final(self) == *old(self),
            !old(self).quitting ==> {
                &&& r matches Some(v) && pairs_view(v@) == active_pids(old(self).store.projects@)
                &&& final(self).store.projects@ == old(self).store.projects@.map_values(
                    |p: ProjectRecord| exit_record(p, now),
                )
                &&& final(self).quitting
                &&& final(self).runtimes@.len() == 0
                &&& runtime_ids_unique(final(self).runtimes@)
                &&& final(self).store.settings == old(self).store.settings
                &&& final(self).store.ignored_discovery_keys
                    == old(self).store.ignored_discovery_keys
                &&& final(self).discovered == old(self).discovered
                &&& final(self).store.schema_version == old(self).store.schema_version
                &&& final(self).data_dir == old(self).data_dir
            },
    {
        if self.quitting {
            return None;
        }
        self.quitting = true;
        let mut active: Vec<(String, u32)> = Vec::new();
        let mut next: Vec<ProjectRecord> = Vec::new();
        let mut i: usize = 0;
        while i < self.store.projects.len()
            invariant
                i <= self.store.projects.len(),
                pairs_view(active@) == active_pids(self.store.projects@.subrange(0, i as int)),
                next@ == self.store.projects@.subrange(0, i as int).map_values(
                    |p: ProjectRecord| exit_record(p, now),
                ),
            decreases self.store.projects.len() - i,
        {
            let ghost sub = self.store.projects@.subrange(0, i + 1);
            assert(sub.drop_last() =~= self.store.projects@.subrange(0, i as int));
            let mut p = self.store.projects[i].copy();
            if status_is_active(p.status) {
                if let Some(pid) = p.pid {
                    active.push((p.id.clone(), pid));
                    assert(pairs_view(active@) =~= active_pids(sub));
                }
                p.status = if p.desired_running {
                    ProjectStatus::RestorePending
                } else {
                    ProjectStatus::Stopped
                };
                p.pid = None;
                p.updated_at = now;
            }
            next.push(p);
            i += 1;
            assert(pairs_view(active@) =~= active_pids(sub));
            assert(next@ =~= sub.map_values(|p: ProjectRecord| exit_record(p, now)));
        }
        assert(self.store.projects@.subrange(0, self.store.projects.len() as int)
            =~= self.store.projects@);
        self.store.projects = next;
        self.runtimes = Vec::new();
        Some(active)
    }

    /// Brings the records up to date when the manager starts: `alive_pids`
    /// are the recorded processes that still exist. A project whose process
    /// lives counts as running; any other active project is no longer
    /// running, and waits to be restored if it wanted to run.
    pub fn reconcile_after_launch(&mut self, alive_pids: &Vec<u32>)
        ensures
            final(self).store.projects@ == old(self).store.projects@.map_values(
                |p: ProjectRecord| relaunch_record(p, alive_pids@),
            ),
            final(self).store.settings == old(self).store.settings,
            final(self).store.ignored_discovery_keys == old(self).store.ignored_discovery_keys,
            final(self).runtimes == old(self).runtimes,
            final(self).discovered == old(self).discovered,
            final(self).quitting == old(self).quitting,
            final(self).store.schema_version == old(self).store.schema_version,
            final(self).data_dir == old(self).data_dir,
    {
        let mut next: Vec<ProjectRecord> = Vec::new();
        let mut i: usize = 0;
        while i < self.store.projects.len()
            invariant
                i <= self.store.projects.len(),
                next@ == self.store.projects@.subrange(0, i as int).map_values(
                    |p: ProjectRecord| relaunch_record(p, alive_pids@),
                ),
            decreases self.store.projects.len() - i,
        {
            let mut p = self.store.projects[i].copy();
            let alive = match p.pid {
                Some(pid) => contains_pid(alive_pids, pid),
                None => false,
            };
            if alive {
                p.status = ProjectStatus::Running;
                p.desired_running = true;
            } else if status_is_active(p.status) {
                p.pid = None;
                p.status = if p.desired_running {
                    ProjectStatus::RestorePending
                } else {
                    ProjectStatus::Stopped
                };
            }
            next.push(p);
            i += 1;
            assert(next@ =~= self.store.projects@.subrange(0, i as int).map_values(
                |p: ProjectRecord| relaunch_record(p, alive_pids@),
            ));
        }
        assert(self.store.projects@.subrange(0, self.store.projects.len() as int)
            =~= self.store.projects@);
        self.store.projects = next;
    }

    /// The running projects whose process the manager did not launch in
    /// this session, with their process ids: the caller checks that those
    /// processes still exist.
    pub fn detached_projects(&self) -> (r: Vec<(String, u32)>)
        ensures
            pairs_view(r@) == detached(self.store.projects@, self.runtimes@),
    {
        let mut r: Vec<(String, u32)> = Vec::new();
        let mut i: usize = 0;
        while i < self.store.projects.len()
            invariant
                i <= self.store.projects.len(),
                pairs_view(r@) == detached(
                    self.store.projects@.subrange(0, i as int),
                    self.runtimes@,
                ),
            decreases self.store.projects.len() - i,
        {
            let ghost sub = self.store.projects@.subrange(0, i + 1);
            assert(sub.drop_last() =~= self.store.projects@.subrange(0, i as int));
            let p = &self.store.projects[i];
            if p.status == ProjectStatus::Running && find_runtime(&self.runtimes, p.id.as_str()).is_none() {
                if let Some(pid) = p.pid {
                    r.push((p.id.clone(), pid));
                }
            }
            i += 1;
            assert(pairs_view(r@) =~= detached(sub, self.runtimes@));
        }
        assert(self.store.projects@.subrange(0, self.store.projects.len() as int)
            =~= self.store.projects@);
        r
    }
}

// ---------------------------------------------------------------------
// Restoring, logs, settings and hidden candidates
// ---------------------------------------------------------------------

/// The ids of the projects waiting to be restored; with `auto_only`, only
/// those whose startup policy restores them by itself.
pub open spec fn restorable_ids(ps: Seq<ProjectRecord>, auto_only: bool) -> Seq<Seq<char>>
    decreases ps.len(),
{
    if ps.len() == 0 {
        seq![]
    } else if ps.last().status == ProjectStatus::RestorePending && (!auto_only
        || ps.last().startup_policy == StartupPolicy::Auto) {
        restorable_ids(ps.drop_last(), auto_only).push(ps.last().id@)
    } else {
        restorable_ids(ps.drop_last(), auto_only)
    }
}

pub open spec fn keys_view(v: Seq<String>) -> Seq<Seq<char>> {
    v.map_values(|s: String| s@)
}

/// The candidates whose key is not `key`.
pub open spec fn without_key(cs: Seq<DiscoveryCandidate>, key: Seq<char>) -> Seq<DiscoveryCandidate>
    decreases cs.len(),
{
    if cs.len() == 0 {
        seq![]
    } else if cs.last().key@ != key {
        without_key(cs.drop_last(), key).push(cs.last())
    } else {
        without_key(cs.drop_last(), key)
    }
}

/// The hidden keys after hiding `key`: added once.
pub open spec fn with_ignored(keys: Seq<Seq<char>>, key: Seq<char>) -> Seq<Seq<char>> {
    if keys.contains(key) {
        keys
    } else {
        keys.push(key)
    }
}

fn contains_key(v: &Vec<String>, key: &str) -> (r: bool)
    ensures
        r == keys_view(v@).contains(key@),
{
    let mut i: usize = 0;
    while i < v.len()
        invariant
            i <= v.len(),
            forall|k: int| 0 <= k < i ==> (#[trigger] v@[k])@ != key@,
        decreases v.len() - i,
    {
        if crate::text::str_equal(v[i].as_str(), key) {
            assert(keys_view(v@)[i as int] == key@);
            return true;
        }
        i += 1;
    }
    assert forall|k: int| 0 <= k < keys_view(v@).len() implies keys_view(v@)[k] != key@ by {
        assert(keys_view(v@)[k] == v@[k]@);
    }
    false
}

fn restorable(ps: &Vec<ProjectRecord>, auto_only: bool) -> (r: Vec<String>)
    ensures
        keys_view(r@) == restorable_ids(ps@, auto_only),
{
    let mut r: Vec<String> = Vec::new();
    let mut i: usize = 0;
    while i < ps.len()
        invariant
            i <= ps.len(),
            keys_view(r@) == restorable_ids(ps@.subrange(0, i as int), auto_only),
        decreases ps.len() - i,
    {
        let ghost sub = ps@.subrange(0, i + 1);
        assert(sub.drop_last() =~= ps@.subrange(0, i as int));
        if ps[i].status == ProjectStatus::RestorePending && (!auto_only || ps[i].startup_policy
            == StartupPolicy::Auto) {
            r.push(ps[i].id.clone());
        }
        i += 1;
        assert(keys_view(r@) =~= restorable_ids(sub, auto_only));
    }
    assert(ps@.subrange(0, ps.len() as int) =~= ps@);
    r
}

impl AppState {
    /// The projects that "restore all" starts: every one waiting to be
    /// restored.
    pub fn restore_pending_ids(&self) -> (r: Vec<String>)
        ensures
            keys_view(r@) == restorable_ids(self.store.projects@, false),
    {
        restorable(&self.store.projects, false)
    }

    /// The projects restored by themselves after a restart: waiting to be
    /// restored, with the automatic startup policy.
    pub fn auto_restore_ids(&self) -> (r: Vec<String>)
        ensures
            keys_view(r@) == restorable_ids(self.store.projects@, true),
    {
        restorable(&self.store.projects, true)
    }

    /// Where project `id` writes its log.
    pub fn log_path(&self, id: &str) -> (r: Result<String, String>)
        ensures
            !has_id(self.store.projects@, id@) ==> fails_with(r, not_found_message()),
            forall|i: int| #[trigger]
                first_with_id(self.store.projects@, id@, i) ==> r == Ok::<String, String>(
                    self.store.projects@[i].log_path,
                ),
    {
        match find_project(&self.store.projects, id) {
            Some(i) => Ok(self.store.projects[i].log_path.clone()),
            None => Err("プロジェクトが見つかりません。".to_string()),
        }
    }

    /// Replaces the settings.
    pub fn save_settings(&mut self, settings: AppSettings)
        ensures
            final(self).store.settings == settings,
            final(self).store.projects == old(self).store.projects,
            final(self).store.ignored_discovery_keys == old(self).store.ignored_discovery_keys,
            final(self).runtimes == old(self).runtimes,
            final(self).discovered == old(self).discovered,
            final(self).quitting == old(self).quitting,
            final(self).store.schema_version == old(self).store.schema_version,
            final(self).data_dir == old(self).data_dir,
    {
        self.store.settings = settings;
    }

    /// Hides the candidate with key `key`: the key is remembered (once)
    /// and the candidate is no longer offered. Returns whether the saved
    /// state changed.
    pub fn ignore_discovery_candidate(&mut self, key: &str) -> (r: bool)
        ensures
            keys_view(final(self).store.ignored_discovery_keys@) == with_ignored(
                keys_view(old(self).store.ignored_discovery_keys@),
                key@,
            ),
            r == !keys_view(old(self).store.ignored_discovery_keys@).contains(key@),
            final(self).discovered@ == without_key(old(self).discovered@, key@),
            final(self).store.projects == old(self).store.projects,
            final(self).store.settings == old(self).store.settings,
            final(self).runtimes == old(self).runtimes,
            final(self).quitting == old(self).quitting,
            final(self).store.schema_version == old(self).store.schema_version,
            final(self).data_dir == old(self).data_dir,
    {
        let known = contains_key(&self.store.ignored_discovery_keys, key);
        if !known {
            self.store.ignored_discovery_keys.push(key.to_string());
            assert(keys_view(self.store.ignored_discovery_keys@) =~= keys_view(
                old(self).store.ignored_discovery_keys@,
            ).push(key@));
        }
        let mut kept: Vec<DiscoveryCandidate> = Vec::new();
        let mut k: usize = 0;
        while k < self.discovered.len()
            invariant
                k <= self.discovered.len(),
                kept@ == without_key(self.discovered@.subrange(0, k as int), key@),
            decreases self.discovered.len() - k,
        {
            assert(self.discovered@.subrange(0, k + 1).drop_last() =~= self.discovered@.subrange(
                0,
                k as int,
            ));
            if !crate::text::str_equal(self.discovered[k].key.as_str(), key) {
                kept.push(self.discovered[k].copy());
            }
            k += 1;
        }
        assert(self.discovered@.subrange(0, self.discovered.len() as int) =~= self.discovered@);
        self.discovered = kept;
        !known
    }

    /// Forgets every hidden key; candidates come back at the next scan.
    pub fn clear_ignored_discovery_candidates(&mut self)
        ensures
            final(self).store.ignored_discovery_keys@.len() == 0,
            final(self).store.projects == old(self).store.projects,
            final(self).store.settings == old(self).store.settings,
            final(self).runtimes == old(self).runtimes,
            final(self).discovered == old(self).discovered,
            final(self).quitting == old(self).quitting,
            final(self).store.schema_version == old(self).store.schema_version,
            final(self).data_dir == old(self).data_dir,
    {
        self.store.ignored_discovery_keys = Vec::new();
    }
}

// ---------------------------------------------------------------------
// Taking in a discovery scan
// ---------------------------------------------------------------------

/// The candidates whose key is not hidden.
pub open spec fn visible(cs: Seq<DiscoveryCandidate>, hidden: Seq<Seq<char>>) -> Seq<
    DiscoveryCandidate,
>
    decreases cs.len(),
{
    if cs.len() == 0 {
        seq![]
    } else if !hidden.contains(cs.last().key@) {
        visible(cs.drop_last(), hidden).push(cs.last())
    } else {
        visible(cs.drop_last(), hidden)
    }
}

/// Some project records this discovery key.
pub open spec fn key_registered(ps: Seq<ProjectRecord>, key: Seq<char>) -> bool {
    exists|i: int|
        0 <= i < ps.len() && (#[trigger] ps[i]).discovery_key is Some && ps[i].discovery_key->0@
            == key
}

/// Some project records this process.
pub open spec fn pid_registered(ps: Seq<ProjectRecord>, pid: u32) -> bool {
    exists|i: int| 0 <= i < ps.len() && (#[trigger] ps[i]).pid == Some(pid)
}

/// The candidates that no project covers, by discovery key or by process.
pub open spec fn unregistered(ps: Seq<ProjectRecord>, cs: Seq<DiscoveryCandidate>) -> Seq<
    DiscoveryCandidate,
>
    decreases cs.len(),
{
    if cs.len() == 0 {
        seq![]
    } else if !key_registered(ps, cs.last().key@) && !pid_registered(ps, cs.last().pid) {
        unregistered(ps, cs.drop_last()).push(cs.last())
    } else {
        unregistered(ps, cs.drop_last())
    }
}

/// When a candidate with this key was first seen, according to the
/// candidates on offer before the scan (the last one with the key).
pub open spec fn first_seen(prev: Seq<DiscoveryCandidate>, key: Seq<char>) -> Option<i64>
    decreases prev.len(),
{
    if prev.len() == 0 {
        None
    } else if prev.last().key@ == key {
        Some(prev.last().discovered_at)
    } else {
        first_seen(prev.drop_last(), key)
    }
}

/// A candidate that was already on offer keeps its first-seen time.
pub open spec fn carried(prev: Seq<DiscoveryCandidate>, c: DiscoveryCandidate) -> DiscoveryCandidate {
    match first_seen(prev, c.key@) {
        Some(t) => DiscoveryCandidate { discovered_at: t, ..c },
        None => c,
    }
}

fn hidden_contains(hidden: &Vec<String>, key: &String) -> (r: bool)
    ensures
        r == keys_view(hidden@).contains(key@),
{
    contains_key(hidden, key.as_str())
}

/// Drops the candidates whose key is hidden.
pub fn filter_hidden(cs: Vec<DiscoveryCandidate>, hidden: &Vec<String>) -> (r: Vec<
    DiscoveryCandidate,
>)
    ensures
        r@ == visible(cs@, keys_view(hidden@)),
{
    let mut r: Vec<DiscoveryCandidate> = Vec::new();
    let mut i: usize = 0;
    while i < cs.len()
        invariant
            i <= cs.len(),
            r@ == visible(cs@.subrange(0, i as int), keys_view(hidden@)),
        decreases cs.len() - i,
    {
        assert(cs@.subrange(0, i + 1).drop_last() =~= cs@.subrange(0, i as int));
        if !hidden_contains(hidden, &cs[i].key) {
            r.push(cs[i].copy());
        }
        i += 1;
    }
    assert(cs@.subrange(0, cs.len() as int) =~= cs@);
    r
}

fn key_registered_exec(ps: &Vec<ProjectRecord>, key: &String) -> (r: bool)
    ensures
        r == key_registered(ps@, key@),
{
    let mut i: usize = 0;
    while i < ps.len()
        invariant
            i <= ps.len(),
            forall|k: int|
                0 <= k < i ==> !((#[trigger] ps@[k]).discovery_key is Some
                    && ps@[k].discovery_key->0@ == key@),
        decreases ps.len() - i,
    {
        match &ps[i].discovery_key {
            Some(k) => {
                if crate::text::str_equal(k.as_str(), key.as_str()) {
                    return true;
                }
            },
            None => {},
        }
        i += 1;
    }
    false
}

fn pid_registered_exec(ps: &Vec<ProjectRecord>, pid: u32) -> (r: bool)
    ensures
        r == pid_registered(ps@, pid),
{
    let mut i: usize = 0;
    while i < ps.len()
        invariant
            i <= ps.len(),
            forall|k: int| 0 <= k < i ==> (#[trigger] ps@[k]).pid != Some(pid),
        decreases ps.len() - i,
    {
        if ps[i].pid == Some(pid) {
            return true;
        }
        i += 1;
    }
    false
}

/// Drops the candidates that a project already covers.
pub fn filter_unregistered(ps: &Vec<ProjectRecord>, cs: Vec<DiscoveryCandidate>) -> (r: Vec<
    DiscoveryCandidate,
>)
    ensures
        r@ == unregistered(ps@, cs@),
{
    let mut r: Vec<DiscoveryCandidate> = Vec::new();
    let mut i: usize = 0;
    while i < cs.len()
        invariant
            i <= cs.len(),
            r@ == unregistered(ps@, cs@.subrange(0, i as int)),
        decreases cs.len() - i,
    {
        assert(cs@.subrange(0, i + 1).drop_last() =~= cs@.subrange(0, i as int));
        if !key_registered_exec(ps, &cs[i].key) && !pid_registered_exec(ps, cs[i].pid) {
            r.push(cs[i].copy());
        }
        i += 1;
    }
    assert(cs@.subrange(0, cs.len() as int) =~= cs@);
    r
}

fn first_seen_exec(prev: &Vec<DiscoveryCandidate>, key: &String) -> (r: Option<i64>)
    ensures
        r == first_seen(prev@, key@),
{
    let mut i = prev.len();
    assert(prev@.subrange(0, i as int) =~= prev@);
    while i > 0
        invariant
            i <= prev.len(),
            first_seen(prev@, key@) == first_seen(prev@.subrange(0, i as int), key@),
        decreases i,
    {
        assert(prev@.subrange(0, i as int).drop_last() =~= prev@.subrange(0, i - 1));
        if crate::text::str_equal(prev[i - 1].key.as_str(), key.as_str()) {
            return Some(prev[i - 1].discovered_at);
        }
        i -= 1;
    }
    None
}

/// Gives each candidate that was already on offer its first-seen time.
pub fn carry_first_seen(prev: &Vec<DiscoveryCandidate>, cs: Vec<DiscoveryCandidate>) -> (r: Vec<
    DiscoveryCandidate,
>)
    ensures
        r@ == cs@.map_values(|c: DiscoveryCandidate| carried(prev@, c)),
{
    let mut r: Vec<DiscoveryCandidate> = Vec::new();
    let mut i: usize = 0;
    while i < cs.len()
        invariant
            i <= cs.len(),
            r@ == cs@.subrange(0, i as int).map_values(|c: DiscoveryCandidate| carried(prev@, c)),
        decreases cs.len() - i,
    {
        let mut c = cs[i].copy();
        match first_seen_exec(prev, &c.key) {
            Some(t) => {
                c.discovered_at = t;
            },
            None => {},
        }
        r.push(c);
        i += 1;
        assert(r@ =~= cs@.subrange(0, i as int).map_values(
            |c: DiscoveryCandidate| carried(prev@, c),
        ));
    }
    assert(cs@.subrange(0, cs.len() as int) =~= cs@);
    r
}

/// The first project that records discovery key `key`.
pub open spec fn key_index(ps: Seq<ProjectRecord>, key: Seq<char>) -> Option<int>
    decreases ps.len(),
{
    if ps.len() == 0 {
        None
    } else if ps[0].discovery_key is Some && ps[0].discovery_key->0@ == key {
        Some(0)
    } else {
        match key_index(ps.drop_first(), key) {
            Some(i) => Some(i + 1),
            None => None,
        }
    }
}

proof fn lemma_key_index(ps: Seq<ProjectRecord>, key: Seq<char>, i: int)
    requires
        0 <= i <= ps.len(),
        forall|k: int|
            0 <= k < i ==> !((#[trigger] ps[k]).discovery_key is Some && ps[k].discovery_key->0@
                == key),
    ensures
        i < ps.len() && ps[i].discovery_key is Some && ps[i].discovery_key->0@ == key
            ==> key_index(ps, key) == Some(i),
        i == ps.len() ==> key_index(ps, key) is None,
    decreases i,
{
    if i > 0 {
        lemma_key_index(ps.drop_first(), key, i - 1);
    }
}

fn key_index_exec(ps: &Vec<ProjectRecord>, key: &String) -> (r: Option<usize>)
    ensures
        match r {
            Some(i) => key_index(ps@, key@) == Some(i as int) && i < ps.len(),
            None => key_index(ps@, key@) is None,
        },
{
    let mut i: usize = 0;
    while i < ps.len()
        invariant
            i <= ps.len(),
            forall|k: int|
                0 <= k < i ==> !((#[trigger] ps@[k]).discovery_key is Some
                    && ps@[k].discovery_key->0@ == key@),
        decreases ps.len() - i,
    {
        let hit = match &ps[i].discovery_key {
            Some(k) => crate::text::str_equal(k.as_str(), key.as_str()),
            None => false,
        };
        if hit {
            proof {
                lemma_key_index(ps@, key@, i as int);
            }
            return Some(i);
        }
        i += 1;
    }
    proof {
        lemma_key_index(ps@, key@, i as int);
    }
    None
}

/// A registered project found running as an outside process again.
pub open spec fn reattached(p: ProjectRecord, c: DiscoveryCandidate, now: i64) -> ProjectRecord {
    ProjectRecord {
        status: ProjectStatus::Running,
        desired_running: true,
        pid: Some(c.pid),
        detected_port: Some(c.port),
        process_origin: ProcessOrigin::External,
        last_started_at: Some(now),
        last_stopped_at: None,
        last_exit_code: None,
        last_error: None,
        updated_at: now,
        ..p
    }
}

/// Candidate `c` applied to the projects: the project with its discovery
/// key (if any) is marked as running `c`'s process, unless the manager
/// itself runs it, or it already is. Says whether a project changed.
pub open spec fn reconcile_step(ps: Seq<ProjectRecord>, c: DiscoveryCandidate, now: i64) -> (Seq<
    ProjectRecord,
>, bool) {
    match key_index(ps, c.key@) {
        None => (ps, false),
        Some(i) => {
            let p = ps[i];
            if p.process_origin == ProcessOrigin::Manager && is_active(p.status) {
                (ps, false)
            } else if p.pid != Some(c.pid) || p.status != ProjectStatus::Running
                || p.process_origin != ProcessOrigin::External {
                (ps.update(i, reattached(p, c, now)), true)
            } else {
                (ps, false)
            }
        },
    }
}

pub open spec fn reconcile_fold(ps: Seq<ProjectRecord>, cs: Seq<DiscoveryCandidate>, now: i64) -> (Seq<
    ProjectRecord,
>, bool)
    decreases cs.len(),
{
    if cs.len() == 0 {
        (ps, false)
    } else {
        let (q, b) = reconcile_fold(ps, cs.drop_last(), now);
        let (q2, b2) = reconcile_step(q, cs.last(), now);
        (q2, b || b2)
    }
}

/// A candidate chosen for automatic registration, with the id and log
/// file of the project it becomes.
pub struct Pick {
    pub candidate: DiscoveryCandidate,
    pub id: String,
    pub log_path: String,
}

/// The project that registering candidate `c` creates: it adopts the
/// running process.
pub open spec fn from_candidate(
    c: DiscoveryCandidate,
    policy: StartupPolicy,
    id: String,
    now: i64,
    log_path: String,
) -> ProjectRecord {
    ProjectRecord {
        id,
        name: c.name,
        directory: c.directory,
        command: c.command,
        url: Some(c.url),
        startup_policy: policy,
        status: ProjectStatus::Running,
        desired_running: true,
        pid: Some(c.pid),
        created_at: now,
        updated_at: now,
        last_started_at: Some(now),
        last_stopped_at: None,
        last_exit_code: None,
        last_error: None,
        log_path,
        discovery_key: Some(c.key),
        detected_port: Some(c.port),
        process_origin: ProcessOrigin::External,
    }
}

/// Registering the picks in order: each whose key no project records yet
/// becomes a project and leaves the offer. Gives (projects, candidates
/// still on offer, new projects).
pub open spec fn adopt_fold(
    ps: Seq<ProjectRecord>,
    cs: Seq<DiscoveryCandidate>,
    picks: Seq<Pick>,
    policy: StartupPolicy,
    now: i64,
) -> (Seq<ProjectRecord>, Seq<DiscoveryCandidate>, Seq<ProjectRecord>)
    decreases picks.len(),
{
    if picks.len() == 0 {
        (ps, cs, seq![])
    } else {
        let (ps1, cs1, ad1) = adopt_fold(ps, cs, picks.drop_last(), policy, now);
        let pk = picks.last();
        if key_registered(ps1, pk.candidate.key@) {
            (ps1, cs1, ad1)
        } else {
            let rec = from_candidate(pk.candidate, policy, pk.id, now, pk.log_path);
            (ps1.push(rec), without_key(cs1, pk.candidate.key@), ad1.push(rec))
        }
    }
}

/// The project that registering a discovered candidate creates.
pub fn project_from_candidate(
    candidate: &DiscoveryCandidate,
    startup_policy: StartupPolicy,
    id: String,
    now: i64,
    log_path: String,
) -> (r: ProjectRecord)
    ensures
        r == from_candidate(*candidate, startup_policy, id, now, log_path),
{
    ProjectRecord {
        id,
        name: candidate.name.clone(),
        directory: candidate.directory.clone(),
        command: candidate.command.clone(),
        url: Some(candidate.url.clone()),
        startup_policy,
        status: ProjectStatus::Running,
        desired_running: true,
        pid: Some(candidate.pid),
        created_at: now,
        updated_at: now,
        last_started_at: Some(now),
        last_stopped_at: None,
        last_exit_code: None,
        last_error: None,
        log_path,
        discovery_key: Some(candidate.key.clone()),
        detected_port: Some(candidate.port),
        process_origin: ProcessOrigin::External,
    }
}

fn drop_key(cs: &Vec<DiscoveryCandidate>, key: &String) -> (r: Vec<DiscoveryCandidate>)
    ensures
        r@ == without_key(cs@, key@),
{
    let mut kept: Vec<DiscoveryCandidate> = Vec::new();
    let mut k: usize = 0;
    while k < cs.len()
        invariant
            k <= cs.len(),
            kept@ == without_key(cs@.subrange(0, k as int), key@),
        decreases cs.len() - k,
    {
        assert(cs@.subrange(0, k + 1).drop_last() =~= cs@.subrange(0, k as int));
        if !crate::text::str_equal(cs[k].key.as_str(), key.as_str()) {
            kept.push(cs[k].copy());
        }
        k += 1;
    }
    assert(cs@.subrange(0, cs.len() as int) =~= cs@);
    kept
}

impl AppState {
    /// Applies each candidate, in order, to the registered projects (see
    /// `reconcile_step`). Returns whether a project changed.
    pub fn reconcile_with_candidates(&mut self, cs: &Vec<DiscoveryCandidate>, now: i64) -> (r: bool)
        ensures
            (final(self).store.projects@, r) == reconcile_fold(old(self).store.projects@, cs@, now),
            final(self).store.settings == old(self).store.settings,
            final(self).store.ignored_discovery_keys == old(self).store.ignored_discovery_keys,
            final(self).store.schema_version == old(self).store.schema_version,
            final(self).runtimes == old(self).runtimes,
            final(self).discovered == old(self).discovered,
            final(self).quitting == old(self).quitting,
            final(self).data_dir == old(self).data_dir,
    {
        let mut changed = false;
        let mut i: usize = 0;
        while i < cs.len()
            invariant
                i <= cs.len(),
                (self.store.projects@, changed) == reconcile_fold(
                    old(self).store.projects@,
                    cs@.subrange(0, i as int),
                    now,
                ),
                self.store.settings == old(self).store.settings,
                self.store.ignored_discovery_keys == old(self).store.ignored_discovery_keys,
                self.store.schema_version == old(self).store.schema_version,
                self.runtimes == old(self).runtimes,
                self.discovered == old(self).discovered,
                self.quitting == old(self).quitting,
                self.data_dir == old(self).data_dir,
            decreases cs.len() - i,
        {
            assert(cs@.subrange(0, i + 1).drop_last() =~= cs@.subrange(0, i as int));
            let c = &cs[i];
            match key_index_exec(&self.store.projects, &c.key) {
                None => {},
                Some(k) => {
                    let mut p = self.store.projects[k].copy();
                    if p.process_origin == ProcessOrigin::Manager && status_is_active(p.status) {
                    } else if p.pid != Some(c.pid) || p.status != ProjectStatus::Running
                        || p.process_origin != ProcessOrigin::External {
                        p.status = ProjectStatus::Running;
                        p.desired_running = true;
                        p.pid = Some(c.pid);
                        p.detected_port = Some(c.port);
                        p.process_origin = ProcessOrigin::External;
                        p.last_started_at = Some(now);
                        p.last_stopped_at = None;
                        p.last_exit_code = None;
                        p.last_error = None;
                        p.updated_at = now;
                        self.store.projects.set(k, p);
                        changed = true;
                    }
                },
            }
            i += 1;
        }
        assert(cs@.subrange(0, cs.len() as int) =~= cs@);
        changed
    }

    /// Registers the picks in order (see `adopt_fold`); `cs` are the
    /// candidates on offer. Returns the candidates still on offer and the
    /// new projects.
    pub fn adopt_picks(
        &mut self,
        cs: Vec<DiscoveryCandidate>,
        picks: Vec<Pick>,
        policy: StartupPolicy,
        now: i64,
    ) -> (r: (Vec<DiscoveryCandidate>, Vec<ProjectRecord>))
        ensures
            (final(self).store.projects@, r.0@, r.1@) == adopt_fold(
                old(self).store.projects@,
                cs@,
                picks@,
                policy,
                now,
            ),
            final(self).store.settings == old(self).store.settings,
            final(self).store.ignored_discovery_keys == old(self).store.ignored_discovery_keys,
            final(self).store.schema_version == old(self).store.schema_version,
            final(self).runtimes == old(self).runtimes,
            final(self).discovered == old(self).discovered,
            final(self).quitting == old(self).quitting,
            final(self).data_dir == old(self).data_dir,
    {
        let mut cands = cs;
        let mut adopted: Vec<ProjectRecord> = Vec::new();
        let mut i: usize = 0;
        assert(picks@.subrange(0, 0) =~= Seq::<Pick>::empty());
        while i < picks.len()
            invariant
                i <= picks.len(),
                (self.store.projects@, cands@, adopted@) == adopt_fold(
                    old(self).store.projects@,
                    cs@,
                    picks@.subrange(0, i as int),
                    policy,
                    now,
                ),
                self.store.settings == old(self).store.settings,
                self.store.ignored_discovery_keys == old(self).store.ignored_discovery_keys,
                self.store.schema_version == old(self).store.schema_version,
                self.runtimes == old(self).runtimes,
                self.discovered == old(self).discovered,
                self.quitting == old(self).quitting,
                self.data_dir == old(self).data_dir,
            decreases picks.len() - i,
        {
            assert(picks@.subrange(0, i + 1).drop_last() =~= picks@.subrange(0, i as int));
            let pk = &picks[i];
            if !key_registered_exec(&self.store.projects, &pk.candidate.key) {
                let rec = project_from_candidate(
                    &pk.candidate,
                    policy,
                    pk.id.clone(),
                    now,
                    pk.log_path.clone(),
                );
                cands = drop_key(&cands, &pk.candidate.key);
                self.store.projects.push(rec.copy());
                adopted.push(rec);
            }
            i += 1;
        }
        assert(picks@.subrange(0, picks.len() as int) =~= picks@);
        (cands, adopted)
    }
}

/// The two candidates show the same thing.
pub open spec fn same_candidate(a: DiscoveryCandidate, b: DiscoveryCandidate) -> bool {
    &&& a.key@ == b.key@
    &&& a.pid == b.pid
    &&& a.port == b.port
    &&& a.address@ == b.address@
    &&& a.url@ == b.url@
    &&& a.name@ == b.name@
    &&& a.process_name@ == b.process_name@
    &&& a.process_type@ == b.process_type@
    &&& a.executable@ == b.executable@
    &&& a.command@ == b.command@
    &&& a.directory@ == b.directory@
    &&& a.external_exposure == b.external_exposure
    &&& a.confidence == b.confidence
    &&& a.discovered_at == b.discovered_at
}

pub open spec fn same_candidates(a: Seq<DiscoveryCandidate>, b: Seq<DiscoveryCandidate>) -> bool {
    &&& a.len() == b.len()
    &&& forall|i: int| 0 <= i < a.len() ==> same_candidate(#[trigger] a[i], b[i])
}

fn same_candidate_exec(a: &DiscoveryCandidate, b: &DiscoveryCandidate) -> (r: bool)
    ensures
        r == same_candidate(*a, *b),
{
    a.key == b.key && a.pid == b.pid && a.port == b.port && a.address == b.address && a.url == b.url
        && a.name == b.name && a.process_name == b.process_name && a.process_type
        == b.process_type && a.executable == b.executable && a.command == b.command
        && a.directory == b.directory && a.external_exposure == b.external_exposure
        && a.confidence == b.confidence && a.discovered_at == b.discovered_at
}

fn same_candidates_exec(a: &Vec<DiscoveryCandidate>, b: &Vec<DiscoveryCandidate>) -> (r: bool)
    ensures
        r == same_candidates(a@, b@),
{
    if a.len() != b.len() {
        return false;
    }
    let mut i: usize = 0;
    while i < a.len()
        invariant
            i <= a.len() == b.len(),
            forall|k: int| 0 <= k < i ==> same_candidate(#[trigger] a@[k], b@[k]),
        decreases a.len() - i,
    {
        if !same_candidate_exec(&a[i], &b[i]) {
            return false;
        }
        i += 1;
    }
    true
}

/// A candidate that may be registered without asking: confident enough,
/// with a directory and a command.
pub open spec fn auto_eligible(c: DiscoveryCandidate) -> bool {
    c.confidence >= 75 && c.directory@.len() > 0 && c.command@.len() > 0
}

/// The eligible candidates whose directory the platform called a folder
/// (`is_dir[i]` answers for `cs[i]`).
pub open spec fn picked(cs: Seq<DiscoveryCandidate>, is_dir: Seq<bool>) -> Seq<DiscoveryCandidate>
    decreases cs.len(),
{
    if cs.len() == 0 {
        seq![]
    } else if auto_eligible(cs.last()) && is_dir[cs.len() - 1] {
        picked(cs.drop_last(), is_dir).push(cs.last())
    } else {
        picked(cs.drop_last(), is_dir)
    }
}

/// What a discovery pass changed, for the caller to save and show.
pub struct DiscoveryOutcome {
    /// The candidates on offer differ from before.
    pub changed: bool,
    /// A registered project was found running again.
    pub reconciled: bool,
    /// Projects registered without asking.
    pub adopted: Vec<ProjectRecord>,
}

/// The candidates offered after a scan that found `found`, before
/// automatic registration: not hidden, not covered by a project once the
/// scan was applied to the projects, with first-seen times carried over.
pub open spec fn offered(before: AppState, found: Seq<DiscoveryCandidate>, now: i64) -> Seq<
    DiscoveryCandidate,
> {
    let vis = visible(found, keys_view(before.store.ignored_discovery_keys@));
    let ps = reconcile_fold(before.store.projects@, vis, now).0;
    unregistered(ps, vis).map_values(|c: DiscoveryCandidate| carried(before.discovered@, c))
}

/// `after` and `out` are what a discovery pass over `found` at time `now`
/// gives from `before`, where `folders` are the directories the platform
/// called folders: `is_dir` marks the offered candidates that may be
/// registered without asking and lie in such a folder, and `picks` are the
/// picked candidates, each with a fresh UUID id and its log file in the
/// data folder.
pub open spec fn discovery_pass(
    before: AppState,
    found: Seq<DiscoveryCandidate>,
    now: i64,
    folders: Seq<Seq<char>>,
    is_dir: Seq<bool>,
    picks: Seq<Pick>,
    after: AppState,
    out: DiscoveryOutcome,
) -> bool {
    let vis = visible(found, keys_view(before.store.ignored_discovery_keys@));
    let (ps, reconciled) = reconcile_fold(before.store.projects@, vis, now);
    let offer = offered(before, found, now);
    let (ps2, remaining, adopted) = adopt_fold(
        ps,
        offer,
        picks,
        before.store.settings.default_startup_policy,
        now,
    );
    &&& is_dir.len() == offer.len()
    &&& forall|i: int|
        0 <= i < offer.len() ==> #[trigger] is_dir[i] == (auto_eligible(offer[i]) && folders.contains(
            offer[i].directory@,
        ))
    &&& forall|k: int|
        0 <= k < picks.len() ==> uuid_text(#[trigger] picks[k].id@) && picks[k].log_path@
            == log_file_path(before.data_dir@, picks[k].id@)
    &&& picks.map_values(|p: Pick| p.candidate) == if before.store.settings.auto_register_discovered {
        picked(offer, is_dir)
    } else {
        seq![]
    }
    &&& after.store.projects@ == ps2
    &&& after.discovered@ == remaining
    &&& out.reconciled == reconciled
    &&& out.adopted@ == adopted
    &&& out.changed == !same_candidates(before.discovered@, remaining)
    &&& after.store.settings == before.store.settings
    &&& after.store.ignored_discovery_keys == before.store.ignored_discovery_keys
    &&& after.store.schema_version == before.store.schema_version
    &&& after.runtimes == before.runtimes
    &&& after.quitting == before.quitting
    &&& after.data_dir == before.data_dir
}

/// The directories of the candidates that may be registered without
/// asking, in order.
pub open spec fn eligible_dirs(cs: Seq<DiscoveryCandidate>) -> Seq<Seq<char>>
    decreases cs.len(),
{
    if cs.len() == 0 {
        seq![]
    } else if auto_eligible(cs.last()) {
        eligible_dirs(cs.drop_last()).push(cs.last().directory@)
    } else {
        eligible_dirs(cs.drop_last())
    }
}

/// The directories a scan that found `found` asks the platform about:
/// those of the candidates that may be registered without asking, when
/// automatic registration is on; none otherwise.
pub open spec fn dirs_to_check(st: AppState, found: Seq<DiscoveryCandidate>) -> Seq<Seq<char>> {
    if st.store.settings.auto_register_discovered {
        eligible_dirs(found)
    } else {
        seq![]
    }
}

impl AppState {
    /// The directories to ask the platform about before taking in a scan
    /// that found `found` (see `dirs_to_check`).
    pub fn folders_to_check(&self, found: &Vec<DiscoveryCandidate>) -> (r: Vec<String>)
        ensures
            keys_view(r@) == dirs_to_check(*self, found@),
    {
        let mut r: Vec<String> = Vec::new();
        if !self.store.settings.auto_register_discovered {
            assert(keys_view(r@) =~= dirs_to_check(*self, found@));
            return r;
        }
        let mut i: usize = 0;
        while i < found.len()
            invariant
                i <= found.len(),
                keys_view(r@) == eligible_dirs(found@.subrange(0, i as int)),
            decreases found.len() - i,
        {
            let ghost sub = found@.subrange(0, i + 1);
            assert(sub.drop_last() =~= found@.subrange(0, i as int));
            let c = &found[i];
            if c.confidence >= 75 && !c.directory.as_str().is_empty() && !c.command.as_str().is_empty() {
                r.push(c.directory.clone());
                assert(keys_view(r@) =~= eligible_dirs(sub));
            }
            i += 1;
        }
        assert(found@.subrange(0, found.len() as int) =~= found@);
        r
    }

    /// Takes in a scan that found `found` at time `now`, where `folders`
    /// are the directories the platform called folders (see
    /// `discovery_pass`): hidden candidates are dropped; registered
    /// projects found running again are marked so, unless the manager
    /// itself runs them; candidates that a project covers are dropped;
    /// candidates already on offer keep their first-seen time; with
    /// automatic registration on, confident candidates in one of `folders`
    /// become projects, each with a fresh id.
    pub fn apply_scan(&mut self, found: Vec<DiscoveryCandidate>, now: i64, folders: &Vec<String>) -> (r:
        DiscoveryOutcome)
        ensures
            exists|is_dir: Seq<bool>, picks: Seq<Pick>| #[trigger]
                discovery_pass(*old(self), found@, now, keys_view(folders@), is_dir, picks, *final(self), r),
    {
        let ghost before = *self;
        let vis = filter_hidden(found, &self.store.ignored_discovery_keys);
        let reconciled = self.reconcile_with_candidates(&vis, now);
        let fresh = filter_unregistered(&self.store.projects, vis);
        let offer = carry_first_seen(&self.discovered, fresh);
        assert(offer@ == offered(before, found@, now));
        let mut is_dir: Vec<bool> = Vec::new();
        let mut picks: Vec<Pick> = Vec::new();
        let mut i: usize = 0;
        while i < offer.len()
            invariant
                i <= offer.len(),
                is_dir@.len() == i,
                self.data_dir == before.data_dir,
                forall|k: int|
                    0 <= k < i ==> #[trigger] is_dir@[k] == (auto_eligible(offer@[k])
                        && keys_view(folders@).contains(offer@[k].directory@)),
                forall|k: int|
                    0 <= k < picks@.len() ==> uuid_text(#[trigger] picks@[k].id@)
                        && picks@[k].log_path@ == log_file_path(before.data_dir@, picks@[k].id@),
                picks@.map_values(|p: Pick| p.candidate) == if self.store.settings.auto_register_discovered {
                    picked(offer@.subrange(0, i as int), is_dir@)
                } else {
                    seq![]
                },
            decreases offer.len() - i,
        {
            let ghost sub = offer@.subrange(0, i + 1);
            assert(sub.drop_last() =~= offer@.subrange(0, i as int));
            let c = &offer[i];
            let ok = if c.confidence >= 75 && !c.directory.as_str().is_empty()
                && !c.command.as_str().is_empty() {
                contains_key(folders, c.directory.as_str())
            } else {
                false
            };
            let ghost old_dirs = is_dir@;
            is_dir.push(ok);
            proof {
                assert(picked(offer@.subrange(0, i as int), is_dir@) == picked(
                    offer@.subrange(0, i as int),
                    old_dirs,
                )) by {
                    lemma_picked_prefix(offer@.subrange(0, i as int), old_dirs, is_dir@);
                }
            }
            if self.store.settings.auto_register_discovered && ok {
                let id = new_project_id();
                let log_path = self.project_log_path(&id);
                picks.push(Pick { candidate: c.copy(), id, log_path });
            }
            i += 1;
            assert(picks@.map_values(|p: Pick| p.candidate) =~= if self.store.settings.auto_register_discovered {
                picked(sub, is_dir@)
            } else {
                seq![]
            });
        }
        assert(offer@.subrange(0, offer.len() as int) =~= offer@);
        let ghost picks_seq = picks@;
        let ghost dirs = is_dir@;
        let policy = self.store.settings.default_startup_policy;
        let (remaining, adopted) = self.adopt_picks(offer, picks, policy, now);
        let changed = !same_candidates_exec(&self.discovered, &remaining);
        self.discovered = remaining;
        let r = DiscoveryOutcome { changed, reconciled, adopted };
        assert(discovery_pass(before, found@, now, keys_view(folders@), dirs, picks_seq, *self, r));
        r
    }

    /// Takes in a scan that found `found` (see `apply_scan`), asking the
    /// platform which of the directories in `folders_to_check` are folders
    /// and reading the clock. A quitting manager changes nothing.
    pub fn perform_discovery(&mut self, found: Vec<DiscoveryCandidate>) -> (r: DiscoveryOutcome)
        ensures
            old(self).quitting ==> *final(self) == *old(self) && !r.changed && !r.reconciled
                && r.adopted@.len() == 0,
            !old(self).quitting ==> exists|
                now: i64,
                folders: Seq<Seq<char>>,
                is_dir: Seq<bool>,
                picks: Seq<Pick>,
            | #[trigger]
                discovery_pass(*old(self), found@, now, folders, is_dir, picks, *final(self), r)
                    && forall|k: int|
                    0 <= k < folders.len() ==> dirs_to_check(*old(self), found@).contains(
                        #[trigger] folders[k],
                    ),
    {
        if self.quitting {
            return DiscoveryOutcome { changed: false, reconciled: false, adopted: Vec::new() };
        }
        let now = now_ms();
        let to_check = self.folders_to_check(&found);
        let mut folders: Vec<String> = Vec::new();
        let mut i: usize = 0;
        while i < to_check.len()
            invariant
                i <= to_check.len(),
                forall|k: int|
                    0 <= k < folders@.len() ==> keys_view(to_check@).contains(
                        #[trigger] folders@[k]@,
                    ),
            decreases to_check.len() - i,
        {
            if path_is_dir(to_check[i].as_str()) {
                let ghost j = i as int;
                folders.push(to_check[i].clone());
                assert(keys_view(to_check@)[j] == to_check@[j]@);
            }
            i += 1;
        }
        let ghost folders_seq = keys_view(folders@);
        assert forall|k: int| 0 <= k < folders_seq.len() implies dirs_to_check(*self, found@).contains(
            #[trigger] folders_seq[k],
        ) by {
            assert(folders_seq[k] == folders@[k]@);
        }
        self.apply_scan(found, now, &folders)
    }
}

proof fn lemma_picked_prefix(cs: Seq<DiscoveryCandidate>, a: Seq<bool>, b: Seq<bool>)
    requires
        a.len() >= cs.len(),
        b.len() >= cs.len(),
        forall|k: int| 0 <= k < cs.len() ==> a[k] == b[k],
    ensures
        picked(cs, a) == picked(cs, b),
    decreases cs.len(),
{
    if cs.len() > 0 {
        lemma_picked_prefix(cs.drop_last(), a, b);
    }
}

// ---------------------------------------------------------------------
// The tray's summary line
// ---------------------------------------------------------------------

/// The tray tooltip: crashed projects first, then projects waiting to be
/// restored, then discovered servers, else the number running.
pub open spec fn tooltip_text(s: DashboardSnapshot) -> Seq<char> {
    if s.crashed_count > 0 {
        "Vibe Manager • "@ + decimal(s.crashed_count as nat) + "件が異常終了"@
    } else if s.restore_count > 0 {
        "Vibe Manager • "@ + decimal(s.restore_count as nat) + "件が復元待ち"@
    } else if s.discovery_count > 0 {
        "Vibe Manager • "@ + decimal(s.discovery_count as nat) + "件のローカルサーバーを検出"@
    } else {
        "Vibe Manager • "@ + decimal(s.running_count as nat) + "件が起動中"@
    }
}

pub fn tray_tooltip(snapshot: &DashboardSnapshot) -> (r: String)
    ensures
        r@ == tooltip_text(*snapshot),
{
    let mut v = chars_of("Vibe Manager • ");
    if snapshot.crashed_count > 0 {
        push_decimal(&mut v, snapshot.crashed_count as u64);
        push_str(&mut v, "件が異常終了");
    } else if snapshot.restore_count > 0 {
        push_decimal(&mut v, snapshot.restore_count as u64);
        push_str(&mut v, "件が復元待ち");
    } else if snapshot.discovery_count > 0 {
        push_decimal(&mut v, snapshot.discovery_count as u64);
        push_str(&mut v, "件のローカルサーバーを検出");
    } else {
        push_decimal(&mut v, snapshot.running_count as u64);
        push_str(&mut v, "件が起動中");
    }
    string_of(&v)
}

// ---------------------------------------------------------------------
// Log text
// ---------------------------------------------------------------------

/// How much of the end of a log the dashboard shows, in bytes.
pub const LOG_READ_BYTES: u64 = 786432;

/// The largest log kept before it is rotated at the next start, in bytes.
pub const MAX_LOG_BYTES: u64 = 5242880;

/// The time label that starts each log entry: `unix:<seconds>`.
pub fn timestamp_label_at(seconds: u64) -> (r: String)
    ensures
        r@ == "unix:"@ + decimal(seconds as nat),
{
    let mut v = chars_of("unix:");
    push_decimal(&mut v, seconds);
    string_of(&v)
}

/// The time label for now.
pub fn timestamp_label() -> (r: String)
    ensures
        exists|seconds: u64| r@ == "unix:"@ + decimal(seconds as nat),
{
    timestamp_label_at(now_secs())
}

/// The entry written before each launch.
pub fn start_log_text(label: &str, project: &ProjectRecord) -> (r: String)
    ensures
        r@ == "\n["@ + label@ + "] --- Starting "@ + project.name@ + " ---\n[CMD] "@
            + project.command@ + "\n[CWD] "@ + project.directory@ + "\n"@,
{
    let mut v = chars_of("\n[");
    push_str(&mut v, label);
    push_str(&mut v, "] --- Starting ");
    push_str(&mut v, project.name.as_str());
    push_str(&mut v, " ---\n[CMD] ");
    push_str(&mut v, project.command.as_str());
    push_str(&mut v, "\n[CWD] ");
    push_str(&mut v, project.directory.as_str());
    push_str(&mut v, "\n");
    string_of(&v)
}

/// The entry written when a running outside process is adopted.
pub fn adopted_log_text(label: &str, project: &ProjectRecord) -> (r: String)
    ensures
        r@ == "["@ + label@ + "] --- Adopted external process "@ + project.name@ + " (PID "@
            + decimal(
            match project.pid {
                Some(n) => n as nat,
                None => 0,
            },
        ) + ") ---\n[VIBE] 取り込み前のログは取得できません。次回Vibe Managerから起動すると記録されます。\n"@,
{
    let mut v = chars_of("[");
    push_str(&mut v, label);
    push_str(&mut v, "] --- Adopted external process ");
    push_str(&mut v, project.name.as_str());
    push_str(&mut v, " (PID ");
    let pid: u32 = match project.pid {
        Some(n) => n,
        None => 0,
    };
    push_decimal(&mut v, pid as u64);
    push_str(
        &mut v,
        ") ---\n[VIBE] 取り込み前のログは取得できません。次回Vibe Managerから起動すると記録されます。\n",
    );
    string_of(&v)
}

/// `Debug` of an optional exit code: `Some(<code>)` or `None`.
pub open spec fn exit_code_text(code: Option<i32>) -> Seq<char> {
    match code {
        Some(n) => "Some("@ + (if n < 0 {
            seq!['-'] + decimal((-n) as nat)
        } else {
            decimal(n as nat)
        }) + ")"@,
        None => "None"@,
    }
}

/// The entry written when a launched process ends.
pub fn exit_log_text(label: &str, code: Option<i32>) -> (r: String)
    ensures
        r@ == "\n["@ + label@ + "] --- Process exited: "@ + exit_code_text(code) + " ---\n"@,
{
    let mut v = chars_of("\n[");
    push_str(&mut v, label);
    push_str(&mut v, "] --- Process exited: ");
    let ghost mid = v@;
    match code {
        Some(n) => {
            push_str(&mut v, "Some(");
            if n < 0 {
                v.push('-');
                let m: i64 = -(n as i64);
                push_decimal(&mut v, m as u64);
            } else {
                push_decimal(&mut v, n as u64);
            }
            push_str(&mut v, ")");
        },
        None => {
            push_str(&mut v, "None");
        },
    }
    assert(v@ =~= mid + exit_code_text(code));
    push_str(&mut v, " ---\n");
    string_of(&v)
}

/// One line of a process's output as the log keeps it, tagged with the
/// stream it came from.
pub fn output_log_line(stream: &str, line: &str) -> (r: String)
    ensures
        r@ == "["@ + stream@ + "] "@ + line@ + "\n"@,
{
    let mut v = chars_of("[");
    push_str(&mut v, stream);
    push_str(&mut v, "] ");
    push_str(&mut v, line);
    push_str(&mut v, "\n");
    string_of(&v)
}

/// What `String::from_utf8_lossy` makes of a byte sequence.
pub uninterp spec fn lossy_utf8(bytes: Seq<u8>) -> Seq<char>;

/// `String::from_utf8_lossy`: the bytes as text, each invalid sequence
/// replaced by U+FFFD. The result is named; the documentation's promise
/// that valid UTF-8 comes back unchanged is stated.
#[verifier::external_body]
fn utf8_lossy(bytes: &Vec<u8>) -> (r: String)
    ensures
        r@ == lossy_utf8(bytes@),
        vstd::utf8::valid_utf8(bytes@) ==> r@ == vstd::utf8::decode_utf8(bytes@),
{
    String::from_utf8_lossy(bytes.as_slice()).into_owned()
}

/// Where reading the end of a log of `len` bytes starts.
pub fn log_read_start(len: u64) -> (r: u64)
    ensures
        r == if len > LOG_READ_BYTES {
            len - LOG_READ_BYTES
        } else {
            0
        },
{
    if len > LOG_READ_BYTES {
        len - LOG_READ_BYTES
    } else {
        0
    }
}

/// The first position of `c` in `s`.
pub open spec fn first_index_of(s: Seq<char>, c: char) -> Option<int>
    decreases s.len(),
{
    if s.len() == 0 {
        None
    } else if s[0] == c {
        Some(0)
    } else {
        match first_index_of(s.drop_first(), c) {
            Some(i) => Some(i + 1),
            None => None,
        }
    }
}

proof fn lemma_first_index_of(s: Seq<char>, c: char, i: int)
    requires
        0 <= i <= s.len(),
        forall|k: int| 0 <= k < i ==> s[k] != c,
    ensures
        i < s.len() && s[i] == c ==> first_index_of(s, c) == Some(i),
        i == s.len() ==> first_index_of(s, c) is None,
    decreases i,
{
    if i > 0 {
        lemma_first_index_of(s.drop_first(), c, i - 1);
    }
}

/// The log text shown for the bytes read from `start` on: when reading
/// began after the start of the file, the partial first line gives way to
/// a note that the beginning was left out.
pub open spec fn tail_text(text: Seq<char>, start: u64) -> Seq<char> {
    if start > 0 && first_index_of(text, '\n') is Some {
        "…（先頭部分を省略）\n"@ + text.subrange(first_index_of(text, '\n')->0 + 1, text.len() as int)
    } else {
        text
    }
}

/// The log text shown for `text`, read from offset `start` (see
/// `tail_text`).
pub fn tail_of_text(text: String, start: u64) -> (r: String)
    ensures
        r@ == tail_text(text@, start),
{
    if start == 0 {
        return text;
    }
    let v = chars_of(text.as_str());
    let mut i: usize = 0;
    while i < v.len() && v[i] != '\n'
        invariant
            i <= v.len(),
            forall|k: int| 0 <= k < i ==> v@[k] != '\n',
        decreases v.len() - i,
    {
        i += 1;
    }
    proof {
        lemma_first_index_of(v@, '\n', i as int);
    }
    if i == v.len() {
        return text;
    }
    let mut out = chars_of("…（先頭部分を省略）\n");
    let ghost head = out@;
    let mut k = i + 1;
    while k < v.len()
        invariant
            i < k <= v.len(),
            out@ == head + v@.subrange(i + 1, k as int),
        decreases v.len() - k,
    {
        out.push(v[k]);
        k += 1;
        assert(out@ =~= head + v@.subrange(i + 1, k as int));
    }
    string_of(&out)
}

/// The text shown for the end of a log: `bytes` were read from offset
/// `start`.
pub fn log_tail_text(bytes: &Vec<u8>, start: u64) -> (r: String)
    ensures
        r@ == tail_text(lossy_utf8(bytes@), start),
{
    tail_of_text(utf8_lossy(bytes), start)
}

} // verus!
