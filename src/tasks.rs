//! The decisions of the interactive task menus; the caller runs the prompts.
use vstd::prelude::*;

use crate::config::Filter;
use crate::priority::{spec_to_rest, Priority as CliPriority};
use crate::rest::{CreateTask, Priority, Task, TaskDue, UpdateTask};
use crate::tree::Tree;

verus! {

/// The fields of a new task that the creation menu can edit, in menu order.
#[derive(Debug, Clone, Copy, PartialEq, Eq, Structural)]
pub enum Selection {
    /// The task's content.
    TaskName,
    /// The task's due date.
    Due,
    /// The task's description.
    Description,
    /// The task's project and section.
    Project,
    /// The task's priority.
    Priority,
}

impl Selection {
    /// The position of the field in the menu.
    pub open spec fn spec_index(self) -> usize {
        match self {
            Selection::TaskName => 0,
            Selection::Due => 1,
            Selection::Description => 2,
            Selection::Project => 3,
            Selection::Priority => 4,
        }
    }

    /// The field at position `s` of the menu.
    pub fn from(s: usize) -> (r: Selection)
        requires
            s < 5,
        ensures
            r.spec_index() == s,
    {
        match s {
            0 => Selection::TaskName,
            1 => Selection::Due,
            2 => Selection::Description,
            3 => Selection::Project,
            _ => Selection::Priority,
        }
    }

    /// The title of the field.
    pub open spec fn spec_title(self) -> Seq<char> {
        match self {
            Selection::TaskName => "Task Name"@,
            Selection::Due => "Due"@,
            Selection::Description => "Description"@,
            Selection::Project => "Project"@,
            Selection::Priority => "Priority"@,
        }
    }

    /// The title that the menu shows for the field.
    pub fn title(&self) -> (r: &'static str)
        ensures
            r@ == self.spec_title(),
    {
        match self {
            Selection::TaskName => "Task Name",
            Selection::Due => "Due",
            Selection::Description => "Description",
            Selection::Project => "Project",
            Selection::Priority => "Priority",
        }
    }
}

/// What the creation menu does next.
#[derive(Debug, Clone, Copy, PartialEq, Eq, Structural)]
pub enum CreateStep {
    /// Send the new task.
    Submit,
    /// Ask for a new value of the field.
    Edit(Selection),
    /// No choice was made: stop without creating anything.
    Abort,
}

/// The step that a choice in the creation menu stands for. The menu lists
/// "Submit" first, then the five fields in order.
pub fn create_step(choice: Option<usize>) -> (r: CreateStep)
    requires
        choice matches Some(s) ==> s <= 5,
    ensures
        choice is None ==> r == CreateStep::Abort,
        choice == Some(0usize) ==> r == CreateStep::Submit,
        choice matches Some(s) ==> (s > 0 ==> (r matches CreateStep::Edit(f) && f.spec_index() == s - 1)),
{
    match choice {
        Some(0) => CreateStep::Submit,
        Some(s) => CreateStep::Edit(Selection::from(s - 1)),
        None => CreateStep::Abort,
    }
}

/// Describes what the user did in the interactive task list.
#[derive(Debug, Clone, Copy, PartialEq, Eq, Structural)]
pub enum ListAction {
    /// An action was taken; the list is shown again.
    Action,
    /// The user left the list.
    Cancel,
}

/// What an entry of the action menu of the task list does.
#[derive(Debug, Clone, PartialEq, Eq)]
pub enum MenuAction {
    /// Create a new task.
    CreateTask,
    /// Ask for a new filter, starting from the current one.
    EditFilter,
    /// Switch to the given filter.
    SetFilter(String),
    /// No choice was made.
    Nothing,
}

/// The action that a choice in the action menu of the task list stands for.
/// The menu lists: create task, set filter, show all tasks, inbox, upcoming,
/// default filter.
pub fn menu_action(choice: Option<usize>, default_filter: &str) -> (r: MenuAction)
    requires
        choice matches Some(s) ==> s <= 5,
    ensures
        choice is None ==> r == MenuAction::Nothing,
        choice == Some(0usize) ==> r == MenuAction::CreateTask,
        choice == Some(1usize) ==> r == MenuAction::EditFilter,
        choice == Some(2usize) ==> (r matches MenuAction::SetFilter(f) && f@ == "all"@),
        choice == Some(3usize) ==> (r matches MenuAction::SetFilter(f) && f@ == "#inbox"@),
        choice == Some(4usize) ==> (r matches MenuAction::SetFilter(f) && f@ == default_filter@),
        choice == Some(5usize) ==> (r matches MenuAction::SetFilter(f) && f@ == "(today | overdue)"@),
{
    match choice {
        Some(0) => MenuAction::CreateTask,
        Some(1) => MenuAction::EditFilter,
        Some(2) => MenuAction::SetFilter("all".to_owned()),
        Some(3) => MenuAction::SetFilter("#inbox".to_owned()),
        Some(4) => MenuAction::SetFilter(default_filter.to_owned()),
        Some(_) => MenuAction::SetFilter("(today | overdue)".to_owned()),
        None => MenuAction::Nothing,
    }
}

/// What narrows a task list: a project, a section, and labels of which a task
/// must carry at least one (no labels: no narrowing by label).
pub struct TaskFilter {
    /// Keep tasks of this project only.
    pub project: Option<u64>,
    /// Keep tasks of this section only.
    pub section: Option<u64>,
    /// Keep tasks that carry one of these labels, where any are given.
    pub labels: Vec<u64>,
}

/// Whether two ID lists share an ID.
pub open spec fn shares_id(a: Seq<u64>, b: Seq<u64>) -> bool {
    exists|i: int, j: int|
        #![trigger a[i], b[j]]
        0 <= i < a.len() && 0 <= j < b.len() && a[i] == b[j]
}

/// Whether task `t` passes filter `f`.
pub open spec fn passes(f: TaskFilter, t: Task) -> bool {
    &&& f.project matches Some(p) ==> t.project_id == p
    &&& f.section matches Some(s) ==> t.section_id == Some(s)
    &&& f.labels@.len() > 0 ==> shares_id(f.labels@, t.label_ids@)
}

/// Indices below `upto`, in increasing order, of the trees whose top task passes `f`.
pub open spec fn passing_upto(f: TaskFilter, ts: Seq<Tree<Task>>, upto: int) -> Seq<int>
    decreases upto,
{
    if upto <= 0 {
        seq![]
    } else {
        let s = passing_upto(f, ts, upto - 1);
        if passes(f, ts[upto - 1].item) {
            s.push(upto - 1)
        } else {
            s
        }
    }
}

proof fn lemma_passing_upto(f: TaskFilter, ts: Seq<Tree<Task>>, upto: int)
    requires
        0 <= upto <= ts.len(),
    ensures
        forall|c: int|
            0 <= c < passing_upto(f, ts, upto).len() ==> 0 <= #[trigger] passing_upto(f, ts, upto)[c]
                < upto,
    decreases upto,
{
    if upto > 0 {
        lemma_passing_upto(f, ts, upto - 1);
        let s = passing_upto(f, ts, upto - 1);
        let r = passing_upto(f, ts, upto);
        assert forall|c: int| 0 <= c < r.len() implies 0 <= #[trigger] r[c] < upto by {
            if passes(f, ts[upto - 1].item) {
                assert(r == s.push(upto - 1));
                if c < s.len() {
                    assert(r[c] == s[c]);
                }
            } else {
                assert(r == s);
            }
        }
    }
}

impl TaskFilter {
    /// Whether the task passes this filter.
    pub fn accepts(&self, t: &Task) -> (r: bool)
        ensures
            r == passes(*self, *t),
    {
        if let Some(p) = self.project {
            if t.project_id != p {
                return false;
            }
        }
        if let Some(s) = self.section {
            match t.section_id {
                Some(x) => {
                    if x != s {
                        return false;
                    }
                },
                None => {
                    return false;
                },
            }
        }
        if self.labels.len() == 0 {
            return true;
        }
        let mut i: usize = 0;
        while i < self.labels.len()
            invariant
                self.project matches Some(p) ==> t.project_id == p,
                self.section matches Some(s) ==> t.section_id == Some(s),
                i <= self.labels@.len(),
                forall|a: int, b: int|
                    #![trigger self.labels@[a], t.label_ids@[b]]
                    0 <= a < i && 0 <= b < t.label_ids@.len() ==> self.labels@[a]
                        != t.label_ids@[b],
            decreases self.labels@.len() - i,
        {
            let mut j: usize = 0;
            while j < t.label_ids.len()
                invariant
                    self.project matches Some(p) ==> t.project_id == p,
                    self.section matches Some(s) ==> t.section_id == Some(s),
                    i < self.labels@.len(),
                    j <= t.label_ids@.len(),
                    forall|a: int, b: int|
                        #![trigger self.labels@[a], t.label_ids@[b]]
                        0 <= a < i && 0 <= b < t.label_ids@.len() ==> self.labels@[a]
                            != t.label_ids@[b],
                    forall|b: int| 0 <= b < j ==> self.labels@[i as int] != #[trigger] t.label_ids@[b],
                decreases t.label_ids@.len() - j,
            {
                if self.labels[i] == t.label_ids[j] {
                    assert(self.labels@[i as int] == t.label_ids@[j as int]);
                    return true;
                }
                j += 1;
            }
            i += 1;
        }
        false
    }

    /// Keeps the trees whose top task passes this filter, in their order.
    pub fn apply(&self, tasks: Vec<Tree<Task>>) -> (r: Vec<Tree<Task>>)
        ensures
            ({
                let idx = passing_upto(*self, tasks@, tasks@.len() as int);
                &&& r@.len() == idx.len()
                &&& forall|c: int| 0 <= c < r@.len() ==> 0 <= idx[c] < tasks@.len() && #[trigger] r@[c] == tasks@[idx[c]]
            }),
    {
        let ghost orig = tasks@;
        let n = tasks.len();
        let mut tasks = tasks;
        let mut rev: Vec<Tree<Task>> = Vec::new();
        while tasks.len() > 0
            invariant
                tasks@.len() + rev@.len() == n,
                n == orig.len(),
                tasks@ == orig.subrange(0, tasks@.len() as int),
                forall|x: int| 0 <= x < rev@.len() ==> #[trigger] rev@[x] == orig[n - 1 - x],
            decreases tasks@.len(),
        {
            let x = tasks.pop().unwrap();
            rev.push(x);
        }
        let mut out: Vec<Tree<Task>> = Vec::new();
        let mut k: usize = 0;
        while k < n
            invariant
                n == orig.len(),
                k <= n,
                rev@.len() == n - k,
                forall|x: int| 0 <= x < rev@.len() ==> #[trigger] rev@[x] == orig[n - 1 - x],
                out@.len() == passing_upto(*self, orig, k as int).len(),
                forall|c: int|
                    0 <= c < out@.len() ==> 0 <= passing_upto(*self, orig, k as int)[c] < k
                        && #[trigger] out@[c] == orig[passing_upto(*self, orig, k as int)[c]],
            decreases n - k,
        {
            let x = rev.pop().unwrap();
            assert(x == orig[k as int]);
            let ghost prev = passing_upto(*self, orig, k as int);
            let ghost next = passing_upto(*self, orig, k as int + 1);
            let ghost before = out@;
            proof {
                lemma_passing_upto(*self, orig, k as int + 1);
            }
            if self.accepts(&x.item) {
                out.push(x);
                assert(next == prev.push(k as int));
                assert forall|c: int| 0 <= c < out@.len() implies 0 <= next[c] < k + 1 && #[trigger] out@[c] == orig[next[c]] by {
                    if c < before.len() {
                        assert(out@[c] == before[c]);
                        assert(next[c] == prev[c]);
                    }
                }
            } else {
                assert(next == prev);
            }
            k += 1;
        }
        proof {
            lemma_passing_upto(*self, orig, n as int);
        }
        out
    }
}

/// What the user picked in a task list led by an "Action..." entry.
pub enum TaskMenu<'a> {
    /// The action menu.
    Menu,
    /// The task that was picked.
    Select(&'a Tree<Task>),
    /// Nothing was picked.
    Nothing,
}

/// The entry that a choice in a task list led by an "Action..." entry stands
/// for: entry 0 is the menu, entry `i` the task at `i - 1`.
pub fn task_menu<'a>(items: &Vec<&'a Tree<Task>>, choice: Option<usize>) -> (r: TaskMenu<'a>)
    requires
        choice matches Some(i) ==> i <= items@.len(),
    ensures
        choice is None ==> r is Nothing,
        choice == Some(0usize) ==> r is Menu,
        choice matches Some(i) ==> (i > 0 ==> (r matches TaskMenu::Select(t) && *t == *items@[i - 1])),
{
    match choice {
        Some(0) => TaskMenu::Menu,
        Some(i) => TaskMenu::Select(items[i - 1]),
        None => TaskMenu::Nothing,
    }
}

/// A task named by its ID, or to be picked from the tasks that pass a filter.
pub struct TaskOrInteractive {
    /// The ID of the task; none means the user picks one.
    pub id: Option<u64>,
    /// The filter that narrows the tasks to pick from.
    pub filter: Filter,
}

impl TaskOrInteractive {
    /// Names the task with the given ID.
    pub fn with_id(id: u64) -> (r: Self)
        ensures
            r.id == Some(id),
            r.filter.filter is None,
    {
        TaskOrInteractive { id: Some(id), filter: Filter::new(None) }
    }
}

/// Why an edit was refused.
#[derive(Debug, Clone, Copy, PartialEq, Eq, Structural)]
pub enum EditError {
    /// The edit sets no field; the command-line flags set the fields.
    NoChanges,
}

impl EditError {
    /// The message shown for the error.
    pub fn message(&self) -> (r: &'static str)
        ensures
            r@ == "No changes to apply. Use the CLI flags to set the desired fields."@,
    {
        "No changes to apply. Use the CLI flags to set the desired fields."
    }
}

/// The update that an edit command asks for: each given value overwrites the
/// task's; no labels given, or an empty list, leaves the labels alone. Fails
/// where nothing would change.
pub fn task_update(
    name: Option<String>,
    desc: Option<String>,
    priority: Option<CliPriority>,
    label_ids: Option<Vec<u64>>,
    due: Option<String>,
) -> (r: Result<UpdateTask, EditError>)
    ensures
        r is Err <==> name is None && desc is None && priority is None && due is None && (
        label_ids matches Some(l) ==> l@.len() == 0),
        r matches Ok(u) ==> {
            &&& u.content == name
            &&& u.description == desc
            &&& (u.priority == match priority {
                Some(p) => Some(spec_to_rest(p)),
                None => None::<Priority>,
            })
            &&& (u.label_ids is None <==> (label_ids matches Some(l) ==> l@.len() == 0))
            &&& (u.label_ids matches Some(v) ==> label_ids == Some(v))
            &&& (u.due is None <==> due is None)
            &&& (u.due matches Some(x) ==> x matches TaskDue::String(d) && due == Some(d))
            &&& u.due_lang is None
            &&& u.assignee is None
        },
{
    let labels = match label_ids {
        Some(l) => if l.len() == 0 {
            None
        } else {
            Some(l)
        },
        None => None,
    };
    let update = UpdateTask {
        content: name,
        description: desc,
        priority: match priority {
            Some(p) => Some(Priority::from(p)),
            None => None,
        },
        label_ids: labels,
        due: match due {
            Some(d) => Some(TaskDue::String(d)),
            None => None,
        },
        due_lang: None,
        assignee: None,
    };
    if update.is_empty() {
        return Err(EditError::NoChanges);
    }
    Ok(update)
}

/// What can be done with a task picked from the list, in menu order.
#[derive(Debug, Clone, Copy, PartialEq, Eq, Structural)]
pub enum TaskOption {
    /// Close the task.
    Close,
    /// Complete the task: move its due date to now, then close it.
    Complete,
    /// Edit one field of the task.
    Edit,
    /// Leave the task as it is.
    Quit,
}

/// The option that a choice in the task menu stands for; no choice quits.
pub fn task_option(choice: Option<usize>) -> (r: TaskOption)
    requires
        choice matches Some(i) ==> i <= 3,
    ensures
        choice == Some(0usize) ==> r == TaskOption::Close,
        choice == Some(1usize) ==> r == TaskOption::Complete,
        choice == Some(2usize) ==> r == TaskOption::Edit,
        choice == Some(3usize) ==> r == TaskOption::Quit,
        choice is None ==> r == TaskOption::Quit,
{
    match choice {
        Some(0) => TaskOption::Close,
        Some(1) => TaskOption::Complete,
        Some(2) => TaskOption::Edit,
        _ => TaskOption::Quit,
    }
}

/// The fields of a task that the edit menu offers, in menu order.
#[derive(Debug, Clone, Copy, PartialEq, Eq, Structural)]
pub enum EditOption {
    /// The content.
    Name,
    /// The description.
    Description,
    /// The due date.
    Due,
    /// The priority.
    Priority,
    /// Leave the task as it is.
    Quit,
}

/// The field that a choice in the edit menu stands for; no choice quits.
pub fn edit_option(choice: Option<usize>) -> (r: EditOption)
    requires
        choice matches Some(i) ==> i <= 4,
    ensures
        choice == Some(0usize) ==> r == EditOption::Name,
        choice == Some(1usize) ==> r == EditOption::Description,
        choice == Some(2usize) ==> r == EditOption::Due,
        choice == Some(3usize) ==> r == EditOption::Priority,
        choice == Some(4usize) ==> r == EditOption::Quit,
        choice is None ==> r == EditOption::Quit,
{
    match choice {
        Some(0) => EditOption::Name,
        Some(1) => EditOption::Description,
        Some(2) => EditOption::Due,
        Some(3) => EditOption::Priority,
        _ => EditOption::Quit,
    }
}

/// The entry that the priority menu ("1 - Urgent" down to "4 - Normal")
/// starts on for a task of priority `p`.
pub fn priority_menu_default(p: Priority) -> (r: usize)
    ensures
        r == 4 - p.spec_value(),
{
    (4 - p.value()) as usize
}

/// The update that one answer in the edit menu asks for: `text` for the name,
/// description or due date, or entry `priority_index` of the priority menu.
/// Quitting changes nothing and is refused as [`EditError::NoChanges`].
pub fn edit_choice(option: EditOption, text: String, priority_index: usize) -> (r: Result<UpdateTask, EditError>)
    requires
        option == EditOption::Priority ==> priority_index < 4,
    ensures
        option == EditOption::Quit <==> r is Err,
        r matches Ok(u) ==> {
            &&& u.content == (if option == EditOption::Name { Some(text) } else { None::<String> })
            &&& u.description == (if option == EditOption::Description { Some(text) } else { None::<String> })
            &&& (u.due is Some <==> option == EditOption::Due)
            &&& (u.due matches Some(x) ==> x matches TaskDue::String(d) && d == text)
            &&& (u.priority is Some <==> option == EditOption::Priority)
            &&& (u.priority matches Some(p) ==> p.spec_value() == 4 - priority_index)
            &&& u.label_ids is None
            &&& u.due_lang is None
            &&& u.assignee is None
        },
{
    match option {
        EditOption::Name => task_update(Some(text), None, None, None, None),
        EditOption::Description => task_update(None, Some(text), None, None, None),
        EditOption::Due => task_update(None, None, None, None, Some(text)),
        EditOption::Priority => {
            let p = match CliPriority::try_from(priority_index + 1) {
                Ok(p) => p,
                Err(_) => return Err(EditError::NoChanges),
            };
            proof {
                crate::priority::lemma_numbers_mirror(p);
            }
            task_update(None, None, Some(p), None, None)
        },
        EditOption::Quit => Err(EditError::NoChanges),
    }
}

/// The update that completes a task at instant `now` (seconds since the Unix
/// epoch): its due date moves to now, so that closing it completes it for good.
pub fn completion_update(now: i64) -> (r: UpdateTask)
    ensures
        r.due matches Some(x) && x matches TaskDue::DateTime(t) && t == now,
        r.content is None && r.description is None && r.label_ids is None && r.priority is None,
        r.due_lang is None && r.assignee is None,
{
    UpdateTask {
        content: None,
        description: None,
        label_ids: None,
        priority: None,
        due: Some(TaskDue::DateTime(now)),
        due_lang: None,
        assignee: None,
    }
}

/// The new task that an add command asks for: each given value is set, a due
/// date as the human-readable text given.
pub fn new_task(
    content: String,
    desc: Option<String>,
    priority: Option<CliPriority>,
    project: Option<u64>,
    section: Option<u64>,
    label_ids: Vec<u64>,
    due: Option<String>,
) -> (r: CreateTask)
    ensures
        r.content == content,
        r.description == desc,
        r.priority == (match priority {
            Some(p) => Some(spec_to_rest(p)),
            None => None::<Priority>,
        }),
        r.project_id == project,
        r.section_id == section,
        r.label_ids == label_ids,
        r.due is None <==> due is None,
        r.due matches Some(x) ==> x matches TaskDue::String(d) && due == Some(d),
        r.parent_id is None && r.order is None && r.due_lang is None && r.assignee is None,
{
    CreateTask {
        content,
        description: desc,
        project_id: project,
        section_id: section,
        parent_id: None,
        order: None,
        label_ids,
        priority: match priority {
            Some(p) => Some(Priority::from(p)),
            None => None,
        },
        due: match due {
            Some(d) => Some(TaskDue::String(d)),
            None => None,
        },
        due_lang: None,
        assignee: None,
    }
}

} // verus!
