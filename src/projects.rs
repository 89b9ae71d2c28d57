//! Narrowing the project list to the projects that hold given tasks.
use vstd::prelude::*;

use crate::rest::{Project, Task};

verus! {

/// How many of the first `upto` tasks belong to project `id`.
pub open spec fn tasks_in(tasks: Seq<Task>, id: u64, upto: int) -> nat
    decreases upto,
{
    if upto <= 0 {
        0
    } else {
        tasks_in(tasks, id, upto - 1) + if tasks[upto - 1].project_id == id {
            1nat
        } else {
            0nat
        }
    }
}

/// Indices below `upto`, in increasing order, of the projects that hold at least one task.
pub open spec fn projects_with_tasks(projects: Seq<Project>, tasks: Seq<Task>, upto: int) -> Seq<int>
    decreases upto,
{
    if upto <= 0 {
        seq![]
    } else {
        let s = projects_with_tasks(projects, tasks, upto - 1);
        if tasks_in(tasks, projects[upto - 1].id, tasks.len() as int) > 0 {
            s.push(upto - 1)
        } else {
            s
        }
    }
}

proof fn lemma_projects_with_tasks(projects: Seq<Project>, tasks: Seq<Task>, upto: int)
    requires
        0 <= upto <= projects.len(),
    ensures
        forall|c: int|
            0 <= c < projects_with_tasks(projects, tasks, upto).len() ==> 0 <= #[trigger] projects_with_tasks(
                projects,
                tasks,
                upto,
            )[c] < upto,
    decreases upto,
{
    if upto > 0 {
        lemma_projects_with_tasks(projects, tasks, upto - 1);
        let s = projects_with_tasks(projects, tasks, upto - 1);
        let r = projects_with_tasks(projects, tasks, upto);
        assert forall|c: int| 0 <= c < r.len() implies 0 <= #[trigger] r[c] < upto by {
            if tasks_in(tasks, projects[upto - 1].id, tasks.len() as int) > 0 {
                assert(r == s.push(upto - 1));
                if c < s.len() {
                    assert(r[c] == s[c]);
                }
            } else {
                assert(r == s);
            }
        }
    }
}

/// The number of tasks of `tasks` in project `id`.
fn count_tasks(tasks: &[Task], id: u64) -> (r: usize)
    ensures
        r == tasks_in(tasks@, id, tasks@.len() as int),
{
    let mut n: usize = 0;
    let mut i: usize = 0;
    while i < tasks.len()
        invariant
            i <= tasks@.len(),
            n == tasks_in(tasks@, id, i as int),
            n <= i,
        decreases tasks@.len() - i,
    {
        if tasks[i].project_id == id {
            n += 1;
        }
        i += 1;
    }
    n
}

/// The projects that hold at least one of `tasks`, in their order in
/// `projects`, each with the number of its tasks.
pub fn filtered_projects<'a>(projects: &'a [Project], tasks: &[Task]) -> (r: Vec<(&'a Project, usize)>)
    ensures
        ({
            let idx = projects_with_tasks(projects@, tasks@, projects@.len() as int);
            &&& r@.len() == idx.len()
            &&& forall|c: int|
                0 <= c < r@.len() ==> 0 <= idx[c] < projects@.len() && *(#[trigger] r@[c]).0
                    == projects@[idx[c]] && r@[c].1 == tasks_in(
                    tasks@,
                    projects@[idx[c]].id,
                    tasks@.len() as int,
                )
        }),
{
    let mut r: Vec<(&'a Project, usize)> = Vec::new();
    let mut i: usize = 0;
    while i < projects.len()
        invariant
            i <= projects@.len(),
            r@.len() == projects_with_tasks(projects@, tasks@, i as int).len(),
            forall|c: int|
                0 <= c < r@.len() ==> 0 <= projects_with_tasks(projects@, tasks@, i as int)[c] < i
                    && *(#[trigger] r@[c]).0 == projects@[projects_with_tasks(
                    projects@,
                    tasks@,
                    i as int,
                )[c]] && r@[c].1 == tasks_in(
                    tasks@,
                    projects@[projects_with_tasks(projects@, tasks@, i as int)[c]].id,
                    tasks@.len() as int,
                ),
        decreases projects@.len() - i,
    {
        let ghost prev = projects_with_tasks(projects@, tasks@, i as int);
        let ghost next = projects_with_tasks(projects@, tasks@, i as int + 1);
        let ghost before = r@;
        let n = count_tasks(tasks, projects[i].id);
        proof {
            lemma_projects_with_tasks(projects@, tasks@, i as int + 1);
        }
        if n > 0 {
            r.push((&projects[i], n));
            assert(next == prev.push(i as int));
            assert forall|c: int| 0 <= c < r@.len() implies 0 <= next[c] < i + 1 && *(#[trigger] r@[c]).0 == projects@[next[c]] && r@[c].1 == tasks_in(tasks@, projects@[next[c]].id, tasks@.len() as int) by {
                if c < before.len() {
                    assert(r@[c] == before[c]);
                    assert(next[c] == prev[c]);
                }
            }
        } else {
            assert(next == prev);
        }
        i += 1;
    }
    proof {
        lemma_projects_with_tasks(projects@, tasks@, projects@.len() as int);
    }
    r
}

} // verus!
