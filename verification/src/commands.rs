//! Lookups behind the dashboard's commands.

use vstd::prelude::*;
use crate::manager::{fails_with, first_with_id, has_id};
use crate::models::{DashboardSnapshot, ProjectRecord};

verus! {

pub open spec fn project_missing_message() -> Seq<char> {
    "Project not found. / プロジェクトが見つかりません。"@
}

/// The project with id `id` as the dashboard shows it.
pub fn project_by_id(snapshot: &DashboardSnapshot, id: &str) -> (r: Result<ProjectRecord, String>)
    ensures
        !has_id(snapshot.projects@, id@) ==> fails_with(r, project_missing_message()),
        forall|i: int| #[trigger]
            first_with_id(snapshot.projects@, id@, i) ==> r == Ok::<ProjectRecord, String>(
                snapshot.projects@[i],
            ),
{
    match crate::manager::find_project(&snapshot.projects, id) {
        Some(i) => Ok(snapshot.projects[i].copy()),
        None => Err("Project not found. / プロジェクトが見つかりません。".to_string()),
    }
}

} // verus!
