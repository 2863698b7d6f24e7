//! The records that the manager keeps: settings, registered projects and
//! their status, discovery candidates, and the dashboard summary.

use vstd::prelude::*;

verus! {

/// What happens to a project that was running when the manager last quit.
#[derive(Debug, Clone, Copy, PartialEq, Eq, Structural)]
pub enum StartupPolicy {
    Auto,
    Ask,
    Manual,
}

impl Default for StartupPolicy {
    fn default() -> (r: Self)
        ensures
            r == StartupPolicy::Ask,
    {
        StartupPolicy::Ask
    }
}

/// The observed state of a project's process.
#[derive(Debug, Clone, Copy, PartialEq, Eq, Structural)]
pub enum ProjectStatus {
    Running,
    Stopped,
    Starting,
    Stopping,
    Crashed,
    RestorePending,
}

impl Default for ProjectStatus {
    fn default() -> (r: Self)
        ensures
            r == ProjectStatus::Stopped,
    {
        ProjectStatus::Stopped
    }
}

/// Whether the manager started the process or adopted one it found.
#[derive(Debug, Clone, Copy, PartialEq, Eq, Structural)]
pub enum ProcessOrigin {
    Manager,
    External,
}

impl Default for ProcessOrigin {
    fn default() -> (r: Self)
        ensures
            r == ProcessOrigin::Manager,
    {
        ProcessOrigin::Manager
    }
}

/// A status in which a process is, or is about to be, alive.
pub open spec fn is_active(s: ProjectStatus) -> bool {
    s == ProjectStatus::Running || s == ProjectStatus::Starting || s == ProjectStatus::Stopping
}

pub fn status_is_active(s: ProjectStatus) -> (r: bool)
    ensures
        r == is_active(s),
{
    match s {
        ProjectStatus::Running | ProjectStatus::Starting | ProjectStatus::Stopping => true,
        _ => false,
    }
}

#[derive(Debug, Clone)]
pub struct AppSettings {
    pub onboarding_complete: bool,
    pub launch_at_login: bool,
    pub default_startup_policy: StartupPolicy,
    pub discovery_enabled: bool,
    pub auto_register_discovered: bool,
    pub workspace_roots: Vec<String>,
}

impl Default for AppSettings {
    fn default() -> (r: Self)
        ensures
            !r.onboarding_complete,
            !r.launch_at_login,
            r.default_startup_policy == StartupPolicy::Ask,
            r.discovery_enabled,
            !r.auto_register_discovered,
            r.workspace_roots@.len() == 0,
    {
        AppSettings {
            onboarding_complete: false,
            launch_at_login: false,
            default_startup_policy: StartupPolicy::Ask,
            discovery_enabled: true,
            auto_register_discovered: false,
            workspace_roots: Vec::new(),
        }
    }
}

/// A registered project and what is known of its process.
#[derive(Debug, Clone)]
pub struct ProjectRecord {
    pub id: String,
    pub name: String,
    pub directory: String,
    pub command: String,
    pub url: Option<String>,
    pub startup_policy: StartupPolicy,
    pub status: ProjectStatus,
    pub desired_running: bool,
    pub pid: Option<u32>,
    pub created_at: i64,
    pub updated_at: i64,
    pub last_started_at: Option<i64>,
    pub last_stopped_at: Option<i64>,
    pub last_exit_code: Option<i32>,
    pub last_error: Option<String>,
    pub log_path: String,
    pub discovery_key: Option<String>,
    pub detected_port: Option<u16>,
    pub process_origin: ProcessOrigin,
}

/// Everything the manager saves between sessions.
#[derive(Debug, Clone)]
pub struct PersistedState {
    pub schema_version: u32,
    pub settings: AppSettings,
    pub projects: Vec<ProjectRecord>,
    pub ignored_discovery_keys: Vec<String>,
}

impl Default for PersistedState {
    fn default() -> (r: Self)
        ensures
            r.schema_version == 1,
            !r.settings.onboarding_complete,
            !r.settings.launch_at_login,
            r.settings.default_startup_policy == StartupPolicy::Ask,
            r.settings.discovery_enabled,
            !r.settings.auto_register_discovered,
            r.settings.workspace_roots@.len() == 0,
            r.projects@.len() == 0,
            r.ignored_discovery_keys@.len() == 0,
    {
        PersistedState {
            schema_version: 1,
            settings: AppSettings::default(),
            projects: Vec::new(),
            ignored_discovery_keys: Vec::new(),
        }
    }
}

/// An unregistered server found listening on localhost.
#[derive(Debug, Clone)]
pub struct DiscoveryCandidate {
    pub key: String,
    pub pid: u32,
    pub port: u16,
    pub address: String,
    pub url: String,
    pub name: String,
    pub process_name: String,
    pub process_type: String,
    pub executable: String,
    pub command: String,
    pub directory: String,
    pub external_exposure: bool,
    pub confidence: u8,
    pub discovered_at: i64,
}

/// What the dashboard shows.
#[derive(Debug, Clone)]
pub struct DashboardSnapshot {
    pub settings: AppSettings,
    pub projects: Vec<ProjectRecord>,
    pub restore_count: usize,
    pub running_count: usize,
    pub crashed_count: usize,
    pub discovery_candidates: Vec<DiscoveryCandidate>,
    pub discovery_count: usize,
    pub ignored_discovery_count: usize,
}

/// A project as the user enters it.
#[derive(Debug, Clone)]
pub struct ProjectInput {
    pub name: String,
    pub directory: String,
    pub command: String,
    pub url: Option<String>,
    pub startup_policy: StartupPolicy,
    pub discovery_key: Option<String>,
    pub detected_port: Option<u16>,
    pub external_pid: Option<u32>,
}

/// Settings as the user enters them.
#[derive(Debug, Clone)]
pub struct SettingsInput {
    pub onboarding_complete: bool,
    pub launch_at_login: bool,
    pub default_startup_policy: StartupPolicy,
    pub discovery_enabled: bool,
    pub auto_register_discovered: bool,
    pub workspace_roots: Vec<String>,
}

impl From<SettingsInput> for AppSettings {
    fn from(value: SettingsInput) -> (r: Self) {
        AppSettings {
            onboarding_complete: value.onboarding_complete,
            launch_at_login: value.launch_at_login,
            default_startup_policy: value.default_startup_policy,
            discovery_enabled: value.discovery_enabled,
            auto_register_discovered: value.auto_register_discovered,
            workspace_roots: value.workspace_roots,
        }
    }
}

impl vstd::std_specs::convert::FromSpecImpl<SettingsInput> for AppSettings {
    open spec fn obeys_from_spec() -> bool {
        true
    }

    open spec fn from_spec(value: SettingsInput) -> AppSettings {
        AppSettings {
            onboarding_complete: value.onboarding_complete,
            launch_at_login: value.launch_at_login,
            default_startup_policy: value.default_startup_policy,
            discovery_enabled: value.discovery_enabled,
            auto_register_discovered: value.auto_register_discovered,
            workspace_roots: value.workspace_roots,
        }
    }
}

// ---------------------------------------------------------------------
// Copies with a known result (a derived `clone` states nothing of its result)
// ---------------------------------------------------------------------

pub fn copy_string_option(o: &Option<String>) -> (r: Option<String>)
    ensures
        r == *o,
{
    match o {
        Some(s) => Some(s.clone()),
        None => None,
    }
}

pub fn copy_strings(v: &Vec<String>) -> (r: Vec<String>)
    ensures
        r@ == v@,
{
    let mut r: Vec<String> = Vec::new();
    let mut i: usize = 0;
    while i < v.len()
        invariant
            i <= v.len(),
            r@ == v@.subrange(0, i as int),
        decreases v.len() - i,
    {
        r.push(v[i].clone());
        i += 1;
        assert(r@ =~= v@.subrange(0, i as int));
    }
    assert(v@.subrange(0, v.len() as int) =~= v@);
    r
}

impl AppSettings {
    pub open spec fn same_as(&self, other: &AppSettings) -> bool {
        &&& self.onboarding_complete == other.onboarding_complete
        &&& self.launch_at_login == other.launch_at_login
        &&& self.default_startup_policy == other.default_startup_policy
        &&& self.discovery_enabled == other.discovery_enabled
        &&& self.auto_register_discovered == other.auto_register_discovered
        &&& self.workspace_roots@ == other.workspace_roots@
    }

    pub fn copy(&self) -> (r: AppSettings)
        ensures
            r.same_as(self),
    {
        AppSettings {
            onboarding_complete: self.onboarding_complete,
            launch_at_login: self.launch_at_login,
            default_startup_policy: self.default_startup_policy,
            discovery_enabled: self.discovery_enabled,
            auto_register_discovered: self.auto_register_discovered,
            workspace_roots: copy_strings(&self.workspace_roots),
        }
    }
}

impl ProjectRecord {
    pub fn copy(&self) -> (r: ProjectRecord)
        ensures
            r == *self,
    {
        ProjectRecord {
            id: self.id.clone(),
            name: self.name.clone(),
            directory: self.directory.clone(),
            command: self.command.clone(),
            url: copy_string_option(&self.url),
            startup_policy: self.startup_policy,
            status: self.status,
            desired_running: self.desired_running,
            pid: self.pid,
            created_at: self.created_at,
            updated_at: self.updated_at,
            last_started_at: self.last_started_at,
            last_stopped_at: self.last_stopped_at,
            last_exit_code: self.last_exit_code,
            last_error: copy_string_option(&self.last_error),
            log_path: self.log_path.clone(),
            discovery_key: copy_string_option(&self.discovery_key),
            detected_port: self.detected_port,
            process_origin: self.process_origin,
        }
    }
}

impl DiscoveryCandidate {
    pub fn copy(&self) -> (r: DiscoveryCandidate)
        ensures
            r == *self,
    {
        DiscoveryCandidate {
            key: self.key.clone(),
            pid: self.pid,
            port: self.port,
            address: self.address.clone(),
            url: self.url.clone(),
            name: self.name.clone(),
            process_name: self.process_name.clone(),
            process_type: self.process_type.clone(),
            executable: self.executable.clone(),
            command: self.command.clone(),
            directory: self.directory.clone(),
            external_exposure: self.external_exposure,
            confidence: self.confidence,
            discovered_at: self.discovered_at,
        }
    }
}

pub fn copy_projects(v: &Vec<ProjectRecord>) -> (r: Vec<ProjectRecord>)
    ensures
        r@ == v@,
{
    let mut r: Vec<ProjectRecord> = Vec::new();
    let mut i: usize = 0;
    while i < v.len()
        invariant
            i <= v.len(),
            r@ == v@.subrange(0, i as int),
        decreases v.len() - i,
    {
        r.push(v[i].copy());
        i += 1;
        assert(r@ =~= v@.subrange(0, i as int));
    }
    assert(v@.subrange(0, v.len() as int) =~= v@);
    r
}

pub fn copy_candidates(v: &[DiscoveryCandidate]) -> (r: Vec<DiscoveryCandidate>)
    ensures
        r@ == v@,
{
    let mut r: Vec<DiscoveryCandidate> = Vec::new();
    let mut i: usize = 0;
    while i < v.len()
        invariant
            i <= v.len(),
            r@ == v@.subrange(0, i as int),
        decreases v.len() - i,
    {
        r.push(v[i].copy());
        i += 1;
        assert(r@ =~= v@.subrange(0, i as int));
    }
    assert(v@.subrange(0, v.len() as int) =~= v@);
    r
}

} // verus!
