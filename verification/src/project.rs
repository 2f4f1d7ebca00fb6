//! Project configuration as the engine reads it: the main repository,
//! the annotation filter pattern, and the five milestone dates as UTC
//! unix timestamps.

use vstd::prelude::*;

verus! {

/// One project's analytics configuration.
#[derive(Debug)]
pub struct Project {
    pub name: String,
    pub main_repo: String,
    pub annotation_regexp: String,
    pub start_date: Option<i64>,
    pub join_date: Option<i64>,
    pub incubating_date: Option<i64>,
    pub graduated_date: Option<i64>,
    pub archived_date: Option<i64>,
    pub shared_db: String,
}

/// All configured projects, keyed by their configuration name.
#[derive(Debug)]
pub struct AllProjects {
    pub projects: Vec<(String, Project)>,
}

impl AllProjects {
    /// The index of the project stored under `name`, if any: the first
    /// entry with that key.
    pub fn find(&self, name: &str) -> (r: Option<usize>)
        ensures
            r matches Some(i) ==> i < self.projects@.len() && self.projects@[i as int].0@ == name@
                && forall|j: int| 0 <= j < i ==> (#[trigger] self.projects@[j].0@) != name@,
            r is None ==> forall|j: int|
                0 <= j < self.projects@.len() ==> (#[trigger] self.projects@[j].0@) != name@,
    {
        let n: usize = self.projects.len();
        let key = name.to_owned();
        let mut i: usize = 0;
        while i < n
            invariant
                i <= n,
                n == self.projects@.len(),
                key@ == name@,
                forall|j: int| 0 <= j < i ==> (#[trigger] self.projects@[j].0@) != name@,
            decreases n - i,
        {
            if self.projects[i].0.eq(&key) {
                return Some(i);
            }
            i = i + 1;
        }
        None
    }

    /// Whether a project uses the tag-history path: it names a main
    /// repository.
    pub fn uses_tag_history(p: &Project) -> (r: bool)
        ensures
            r == (p.main_repo@.len() > 0),
    {
        !p.main_repo.as_str().is_empty()
    }
}

} // verus!
