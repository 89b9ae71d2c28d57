//! The records of the Todoist REST API, as plain values.
//!
//! Dates and times are held as numbers: an instant as whole seconds since the
//! Unix epoch, a calendar date in its ISO form as the API sends it.
use std::cmp::Ordering;
use vstd::prelude::*;

use crate::tree::Treeable;

verus! {

/// TaskID describes the unique ID of a [`Task`].
pub type TaskID = u64;

/// UserID is the unique ID of a user.
pub type UserID = u64;

/// ProjectID is the unique ID of a [`Project`].
pub type ProjectID = u64;

/// SectionID is the unique ID of a [`Section`].
pub type SectionID = u64;

/// LabelID is the unique ID of a [`Label`].
pub type LabelID = u64;

/// Priority as it is given by the Todoist API: 1 for Normal up to 4 for Urgent.
#[derive(Debug, Clone, Copy, PartialEq, Eq, Structural)]
pub enum Priority {
    /// p4 in the Todoist UI.
    Normal,
    /// p3 in the Todoist UI.
    High,
    /// p2 in the Todoist UI.
    VeryHigh,
    /// p1 in the Todoist UI.
    Urgent,
}

impl Priority {
    /// The number that the API uses for this priority.
    pub open spec fn spec_value(self) -> u8 {
        match self {
            Priority::Normal => 1,
            Priority::High => 2,
            Priority::VeryHigh => 3,
            Priority::Urgent => 4,
        }
    }

    /// The number that the API uses for this priority.
    pub fn value(&self) -> (r: u8)
        ensures
            r == self.spec_value(),
    {
        match self {
            Priority::Normal => 1,
            Priority::High => 2,
            Priority::VeryHigh => 3,
            Priority::Urgent => 4,
        }
    }

    /// The priority with the given API number, if there is one.
    pub fn from_value(v: u8) -> (r: Option<Priority>)
        ensures
            r matches Some(p) ==> p.spec_value() == v,
            r is Some <==> 1 <= v <= 4,
    {
        match v {
            1 => Some(Priority::Normal),
            2 => Some(Priority::High),
            3 => Some(Priority::VeryHigh),
            4 => Some(Priority::Urgent),
            _ => None,
        }
    }

    /// The name that the Todoist UI shows: the API's order reversed, so that
    /// Urgent reads `p1` and Normal `p4`.
    pub open spec fn spec_ui_name(self) -> Seq<char> {
        match self {
            Priority::Normal => seq!['p', '4'],
            Priority::High => seq!['p', '3'],
            Priority::VeryHigh => seq!['p', '2'],
            Priority::Urgent => seq!['p', '1'],
        }
    }

    /// The name that the Todoist UI shows for this priority.
    pub fn ui_name(&self) -> (r: &'static str)
        ensures
            r@ == self.spec_ui_name(),
    {
        match self {
            Priority::Normal => {
                proof {
                    reveal_strlit("p4");
                }
                "p4"
            },
            Priority::High => {
                proof {
                    reveal_strlit("p3");
                }
                "p3"
            },
            Priority::VeryHigh => {
                proof {
                    reveal_strlit("p2");
                }
                "p2"
            },
            Priority::Urgent => {
                proof {
                    reveal_strlit("p1");
                }
                "p1"
            },
        }
    }
}

impl Default for Priority {
    fn default() -> (r: Self)
        ensures
            r == Priority::Normal,
    {
        Priority::Normal
    }
}

/// ExactTime exists in a [`DueDate`] if the task is due at an exact time.
#[derive(Debug, Clone)]
pub struct ExactTime {
    /// The instant the task is due, in seconds since the Unix epoch.
    pub timestamp: i64,
    /// The UTC offset in seconds that the instant was given in.
    pub offset: i32,
    /// Time zone name or UTC offset.
    pub timezone: String,
}

/// DueDate is the Due object of the Todoist API.
#[derive(Debug, Clone)]
pub struct DueDate {
    /// Human-readable form of the due date.
    pub human_readable: String,
    /// The date on which the task is due, as `YYYY-MM-DD`.
    pub date: String,
    /// Whether the task is recurring (reopens after close).
    pub recurring: bool,
    /// If set, the exact time the task is due.
    pub exact: Option<ExactTime>,
}

/// Task describes a task of the Todoist API.
#[derive(Debug)]
pub struct Task {
    /// Unique ID of a task.
    pub id: TaskID,
    /// The [`Project`] the task belongs to.
    pub project_id: ProjectID,
    /// Set if the task is also in a section of a project.
    pub section_id: Option<SectionID>,
    /// The main content of the task, also known as its name.
    pub content: String,
    /// The description found under the content.
    pub description: String,
    /// Whether the task was completed.
    pub completed: bool,
    /// All [`Label`]s attached to the task.
    pub label_ids: Vec<LabelID>,
    /// The parent task, where the task sits under one.
    pub parent_id: Option<TaskID>,
    /// The order within the subtasks of a task.
    pub order: isize,
    /// How urgent the task is.
    pub priority: Priority,
    /// The due date of the task.
    pub due: Option<DueDate>,
    /// Link to the task in the Todoist UI.
    pub url: String,
    /// The number of comments on the task.
    pub comment_count: usize,
    /// Who the task is assigned to.
    pub assignee: Option<UserID>,
    /// Who assigned the task to the assignee.
    pub assigner: Option<UserID>,
    /// When the task was created, in seconds since the Unix epoch.
    pub created: i64,
}

impl Task {
    /// A task with the given ID and content, and every other field empty.
    pub fn new(id: TaskID, content: &str) -> (r: Task)
        ensures
            r.id == id,
            r.content@ == content@,
            r.parent_id is None,
            r.project_id == 0,
            r.section_id is None,
            r.order == 0,
            r.priority == Priority::Normal,
            r.due is None,
            r.label_ids@.len() == 0,
    {
        Task {
            id,
            project_id: 0,
            section_id: None,
            content: content.to_owned(),
            description: String::new(),
            completed: false,
            label_ids: Vec::new(),
            parent_id: None,
            order: 0,
            priority: Priority::Normal,
            due: None,
            url: String::new(),
            comment_count: 0,
            assignee: None,
            assigner: None,
            created: 0,
        }
    }

    /// Compares two tasks the way the Todoist UI lists them.
    pub fn compare(&self, other: &Task) -> (r: Ordering)
        ensures
            r == task_order(*self, *other),
    {
        match (exact_instant(self), exact_instant(other)) {
            (Some(left), Some(right)) => {
                if left < right {
                    return Ordering::Less;
                } else if left > right {
                    return Ordering::Greater;
                }
            },
            (Some(_), None) => return Ordering::Less,
            (None, Some(_)) => return Ordering::Greater,
            (None, None) => {},
        }
        let (lp, rp) = (self.priority.value(), other.priority.value());
        if lp > rp {
            Ordering::Less
        } else if lp < rp {
            Ordering::Greater
        } else if self.order < other.order {
            Ordering::Less
        } else if self.order > other.order {
            Ordering::Greater
        } else if self.id < other.id {
            Ordering::Less
        } else if self.id > other.id {
            Ordering::Greater
        } else {
            Ordering::Equal
        }
    }
}

/// The exact instant a task is due, if it has one.
pub open spec fn spec_exact_instant(t: Task) -> Option<i64> {
    match t.due {
        Some(d) => match d.exact {
            Some(e) => Some(e.timestamp),
            None => None,
        },
        None => None,
    }
}

fn exact_instant(t: &Task) -> (r: Option<i64>)
    ensures
        r == spec_exact_instant(*t),
{
    match &t.due {
        Some(d) => match &d.exact {
            Some(e) => Some(e.timestamp),
            None => None,
        },
        None => None,
    }
}

/// The order of two integers.
pub open spec fn compare_int(a: int, b: int) -> Ordering {
    if a < b {
        Ordering::Less
    } else if a > b {
        Ordering::Greater
    } else {
        Ordering::Equal
    }
}

/// The order of tasks in the Todoist UI: tasks due at an exact time come first,
/// earliest first; then higher priority first; then by `order`; then by ID.
pub open spec fn task_order(a: Task, b: Task) -> Ordering {
    let (x, y) = (spec_exact_instant(a), spec_exact_instant(b));
    if x is Some && y is Some && x->0 != y->0 {
        compare_int(x->0 as int, y->0 as int)
    } else if x is Some && y is None {
        Ordering::Less
    } else if x is None && y is Some {
        Ordering::Greater
    } else if a.priority.spec_value() != b.priority.spec_value() {
        compare_int(b.priority.spec_value() as int, a.priority.spec_value() as int)
    } else if a.order != b.order {
        compare_int(a.order as int, b.order as int)
    } else {
        compare_int(a.id as int, b.id as int)
    }
}

/// Tasks in the order of the Todoist UI: no task comes after one it precedes.
pub open spec fn tasks_sorted(s: Seq<Task>) -> bool {
    forall|i: int, j: int| 0 <= i < j < s.len() ==> task_order(#[trigger] s[i], #[trigger] s[j]) != Ordering::Greater
}

/// The UI order of tasks is a total preorder: comparing the other way round
/// reverses the result, and "not after" carries over from one task to the next.
pub proof fn lemma_task_order(a: Task, b: Task, c: Task)
    ensures
        task_order(a, b) == Ordering::Greater <==> task_order(b, a) == Ordering::Less,
        task_order(a, b) != Ordering::Greater && task_order(b, c) != Ordering::Greater ==> task_order(a, c) != Ordering::Greater,
        task_order(a, b) == Ordering::Less && task_order(b, c) != Ordering::Greater ==> task_order(a, c) == Ordering::Less,
{
}

/// Sorts tasks into the order of the Todoist UI.
pub fn sort_tasks(tasks: Vec<Task>) -> (r: Vec<Task>)
    ensures
        tasks_sorted(r@),
        r@.to_multiset() == tasks@.to_multiset(),
{
    let ghost orig = tasks@;
    let n = tasks.len();
    let mut tasks = tasks;
    let mut rev: Vec<Task> = Vec::new();
    while tasks.len() > 0
        invariant
            tasks@.len() + rev@.len() == n,
            n == orig.len(),
            tasks@ == orig.subrange(0, tasks@.len() as int),
            forall|x: int| 0 <= x < rev@.len() ==> #[trigger] rev@[x] == orig[n - 1 - x],
        decreases tasks@.len(),
    {
        let x = tasks.pop().unwrap();
        rev.push(x);
    }
    let mut out: Vec<Task> = Vec::new();
    let mut k: usize = 0;
    assert(orig.subrange(0, 0) =~= Seq::<Task>::empty());
    while k < n
        invariant
            n == orig.len(),
            k <= n,
            rev@.len() == n - k,
            forall|x: int| 0 <= x < rev@.len() ==> #[trigger] rev@[x] == orig[n - 1 - x],
            tasks_sorted(out@),
            out@.to_multiset() == orig.subrange(0, k as int).to_multiset(),
        decreases n - k,
    {
        let x = rev.pop().unwrap();
        assert(x == orig[k as int]);
        let mut p: usize = 0;
        while p < out.len()
            invariant
                p <= out@.len(),
                forall|i: int| 0 <= i < p ==> task_order(x, #[trigger] out@[i]) != Ordering::Less,
            ensures
                p <= out@.len(),
                forall|i: int| 0 <= i < p ==> task_order(x, #[trigger] out@[i]) != Ordering::Less,
                p < out@.len() ==> task_order(x, out@[p as int]) == Ordering::Less,
            decreases out@.len() - p,
        {
            match x.compare(&out[p]) {
                Ordering::Less => break,
                _ => {},
            }
            p += 1;
        }
        let ghost old_out = out@;
        out.insert(p, x);
        proof {
            let new_out = out@;
            assert(new_out == old_out.insert(p as int, x));
            assert forall|i: int, j: int| 0 <= i < j < new_out.len() implies task_order(#[trigger] new_out[i], #[trigger] new_out[j]) != Ordering::Greater by {
                if j < p {
                    assert(new_out[i] == old_out[i] && new_out[j] == old_out[j]);
                } else if j == p {
                    assert(new_out[i] == old_out[i]);
                    lemma_task_order(x, old_out[i], x);
                } else if i > p {
                    assert(new_out[i] == old_out[i - 1] && new_out[j] == old_out[j - 1]);
                } else if i == p {
                    assert(new_out[j] == old_out[j - 1]);
                    assert(task_order(x, old_out[p as int]) == Ordering::Less);
                    if j - 1 > p {
                        assert(task_order(old_out[p as int], old_out[j - 1]) != Ordering::Greater);
                    }
                    lemma_task_order(x, old_out[p as int], old_out[j - 1]);
                } else {
                    assert(new_out[i] == old_out[i] && new_out[j] == old_out[j - 1]);
                }
            }
            assert(new_out.remove(p as int) =~= old_out);
            assert(new_out[p as int] == x);
            assert(new_out.to_multiset() =~= old_out.to_multiset().insert(x)) by {
                new_out.to_multiset_ensures();
                old_out.to_multiset_ensures();
                assert(new_out.contains(x));
            }
            orig.subrange(0, k as int).to_multiset_ensures();
            assert(orig.subrange(0, k as int + 1) =~= orig.subrange(0, k as int).push(x));
        }
        k += 1;
    }
    assert(orig.subrange(0, n as int) =~= orig);
    out
}

impl Treeable for Task {
    open spec fn key(&self) -> u64 {
        self.id
    }

    open spec fn parent_key(&self) -> Option<u64> {
        self.parent_id
    }

    open spec fn orphaned(&self) -> Self {
        Task { parent_id: None, ..*self }
    }

    proof fn lemma_orphaned(&self) {
    }

    fn id(&self) -> (r: u64) {
        self.id
    }

    fn parent_id(&self) -> (r: Option<u64>) {
        self.parent_id
    }

    fn reset_parent(&mut self) {
        self.parent_id = None;
    }

    open spec fn spec_order(&self, other: &Self) -> Ordering {
        task_order(*self, *other)
    }

    proof fn lemma_order(a: Self, b: Self, c: Self) {
        lemma_task_order(a, b, c);
    }

    fn order(&self, other: &Self) -> (r: Ordering) {
        self.compare(other)
    }
}

/// How a project is viewed in the Todoist clients.
#[derive(Debug, Clone, Copy, PartialEq, Eq, Structural)]
pub enum ViewStyle {
    /// Project as list view (default).
    List,
    /// Project as board view.
    Board,
    /// Project as calendar view.
    Calendar,
}

impl Default for ViewStyle {
    fn default() -> (r: Self)
        ensures
            r == ViewStyle::List,
    {
        ViewStyle::List
    }
}

/// Project as described by the Todoist API.
#[derive(Debug, Clone)]
pub struct Project {
    /// ID of the project.
    pub id: ProjectID,
    /// The direct parent of the project, if it has one.
    pub parent_id: Option<ProjectID>,
    /// The name of the project.
    pub name: String,
    /// How many project comments there are.
    pub comment_count: usize,
    /// Color as used by the Todoist UI.
    pub color: String,
    /// Whether the project is shared with someone else.
    pub is_shared: bool,
    /// Project order under the same parent.
    pub order: isize,
    /// Marks the initial Inbox project.
    pub is_inbox_project: bool,
    /// Marks a team Inbox project.
    pub is_team_inbox: bool,
    /// Whether the project is a favorite.
    pub is_favorite: bool,
    /// Link to the project in the Todoist UI.
    pub url: String,
    /// View style to show in Todoist clients.
    pub view_style: ViewStyle,
}

impl Project {
    /// A project with the given ID and name, and every other field empty.
    pub fn new(id: ProjectID, name: &str) -> (r: Project)
        ensures
            r.id == id,
            r.name@ == name@,
            r.parent_id is None,
            r.order == 0,
    {
        Project {
            id,
            parent_id: None,
            name: name.to_owned(),
            comment_count: 0,
            color: String::new(),
            is_shared: false,
            order: 0,
            is_inbox_project: false,
            is_team_inbox: false,
            is_favorite: false,
            url: String::new(),
            view_style: ViewStyle::List,
        }
    }
}

impl Treeable for Project {
    open spec fn key(&self) -> u64 {
        self.id
    }

    open spec fn parent_key(&self) -> Option<u64> {
        self.parent_id
    }

    open spec fn orphaned(&self) -> Self {
        Project { parent_id: None, ..*self }
    }

    proof fn lemma_orphaned(&self) {
    }

    fn id(&self) -> (r: u64) {
        self.id
    }

    fn parent_id(&self) -> (r: Option<u64>) {
        self.parent_id
    }

    fn reset_parent(&mut self) {
        self.parent_id = None;
    }

    /// Projects are listed by ID.
    open spec fn spec_order(&self, other: &Self) -> Ordering {
        compare_int(self.id as int, other.id as int)
    }

    proof fn lemma_order(a: Self, b: Self, c: Self) {
    }

    fn order(&self, other: &Self) -> (r: Ordering) {
        if self.id < other.id {
            Ordering::Less
        } else if self.id > other.id {
            Ordering::Greater
        } else {
            Ordering::Equal
        }
    }
}

/// Section describes a subsection of a [`Project`].
#[derive(Debug, Clone)]
pub struct Section {
    /// The unique ID of the section.
    pub id: SectionID,
    /// The project that the section belongs to.
    pub project_id: ProjectID,
    /// Position of the section among the sections of the same project.
    pub order: isize,
    /// The name of the section.
    pub name: String,
}

impl Section {
    /// A section with the given IDs and name, at order 0.
    pub fn new(id: SectionID, project_id: ProjectID, name: &str) -> (r: Section)
        ensures
            r.id == id,
            r.project_id == project_id,
            r.name@ == name@,
            r.order == 0,
    {
        Section { id, project_id, order: 0, name: name.to_owned() }
    }

    /// Compares two sections by their order, then by ID.
    pub fn compare(&self, other: &Section) -> (r: Ordering)
        ensures
            r == (if self.order != other.order {
                compare_int(self.order as int, other.order as int)
            } else {
                compare_int(self.id as int, other.id as int)
            }),
    {
        if self.order < other.order {
            Ordering::Less
        } else if self.order > other.order {
            Ordering::Greater
        } else if self.id < other.id {
            Ordering::Less
        } else if self.id > other.id {
            Ordering::Greater
        } else {
            Ordering::Equal
        }
    }
}

/// Label is a tag attached to tasks. Written `@name` in the UI.
#[derive(Debug, Clone)]
pub struct Label {
    /// Unique ID of the label.
    pub id: LabelID,
    /// Name of the label.
    pub name: String,
    /// The display color of the label as given by the API.
    pub color: String,
    /// The order among labels.
    pub order: isize,
    /// Whether the label is a favorite.
    pub is_favorite: bool,
}

impl Label {
    /// A label with the given ID and name, and every other field empty.
    pub fn new(id: LabelID, name: &str) -> (r: Label)
        ensures
            r.id == id,
            r.name@ == name@,
            r.order == 0,
    {
        Label { id, name: name.to_owned(), color: String::new(), order: 0, is_favorite: false }
    }

    /// Compares two labels by their order, then by ID.
    pub fn compare(&self, other: &Label) -> (r: Ordering)
        ensures
            r == (if self.order != other.order {
                compare_int(self.order as int, other.order as int)
            } else {
                compare_int(self.id as int, other.id as int)
            }),
    {
        if self.order < other.order {
            Ordering::Less
        } else if self.order > other.order {
            Ordering::Greater
        } else if self.id < other.id {
            Ordering::Less
        } else if self.id > other.id {
            Ordering::Greater
        } else {
            Ordering::Equal
        }
    }
}

/// Command used to create a new [`Label`].
#[derive(Debug, Default)]
pub struct CreateLabel {
    /// Name of the label to create.
    pub name: String,
    /// Order of the label in lists.
    pub order: Option<isize>,
    /// Color of the label icon.
    pub color: Option<String>,
    /// Mark as favorite or not.
    pub favorite: Option<bool>,
}

/// Command used to create a new [`Project`].
#[derive(Debug, Default)]
pub struct CreateProject {
    /// Name of the project to create.
    pub name: String,
    /// Makes the new project a child of this parent project.
    pub parent_id: Option<ProjectID>,
    /// Color of the project icon.
    pub color: Option<String>,
    /// Mark as favorite or not.
    pub favorite: Option<bool>,
    /// Sets the view style of the project.
    pub view_style: Option<ViewStyle>,
}

/// Command used to create a new [`Section`].
#[derive(Debug, Default)]
pub struct CreateSection {
    /// Name of the section to create.
    pub name: String,
    /// The project that the section is part of.
    pub project_id: ProjectID,
    /// Order of the section in lists.
    pub order: Option<isize>,
}

/// Human representation of a due date, as a new or updated task sets it.
#[derive(Debug, Clone)]
pub enum TaskDue {
    /// Human-readable description of the date, such as "tomorrow".
    String(String),
    /// Loose target date with no exact time, as `YYYY-MM-DD`.
    Date(String),
    /// Exact instant in seconds since the Unix epoch.
    DateTime(i64),
}

/// Command used to create a new [`Task`].
#[derive(Debug, Default)]
pub struct CreateTask {
    /// Sets the content of the new task.
    pub content: String,
    /// Sets the description of the new task.
    pub description: Option<String>,
    /// Sets the project of the new task.
    pub project_id: Option<ProjectID>,
    /// Sets the section of the new task.
    pub section_id: Option<SectionID>,
    /// Sets the parent of the new task.
    pub parent_id: Option<TaskID>,
    /// Sets the order of the new task.
    pub order: Option<isize>,
    /// Sets the labels of the new task.
    pub label_ids: Vec<LabelID>,
    /// Sets the priority of the new task.
    pub priority: Option<Priority>,
    /// Sets the due date of the new task.
    pub due: Option<TaskDue>,
    /// Language of a due date given as a string, as a two-letter code.
    pub due_lang: Option<String>,
    /// Sets the assignee of the new task.
    pub assignee: Option<UserID>,
}

/// Command used to update a [`Task`]; each field that is set overwrites the task's.
#[derive(Debug, Default)]
pub struct UpdateTask {
    /// Overwrites the content if set.
    pub content: Option<String>,
    /// Overwrites the description if set.
    pub description: Option<String>,
    /// Overwrites the labels if set.
    pub label_ids: Option<Vec<LabelID>>,
    /// Overwrites the priority if set.
    pub priority: Option<Priority>,
    /// Overwrites the due date if set.
    pub due: Option<TaskDue>,
    /// Language of a due date given as a string, as a two-letter code.
    pub due_lang: Option<String>,
    /// Overwrites the assignee if set.
    pub assignee: Option<UserID>,
}

impl UpdateTask {
    /// Whether the update sets no field, so that sending it would change nothing.
    pub fn is_empty(&self) -> (r: bool)
        ensures
            r <==> self.content is None && self.description is None && self.label_ids is None
                && self.priority is None && self.due is None && self.due_lang is None
                && self.assignee is None,
    {
        self.content.is_none() && self.description.is_none() && self.label_ids.is_none()
            && self.priority.is_none() && self.due.is_none() && self.due_lang.is_none()
            && self.assignee.is_none()
    }
}

/// The API writes 0 where an ID is absent: 0 reads as no ID.
pub fn zero_to_none(v: Option<u64>) -> (r: Option<u64>)
    ensures
        r == (match v {
            Some(x) => if x == 0 {
                None
            } else {
                Some(x)
            },
            None => None,
        }),
{
    match v {
        Some(0) => None,
        other => other,
    }
}

/// The color names of the Todoist API, which numbers them from 30.
#[derive(Debug, Clone, Copy, PartialEq, Eq, Structural)]
pub enum Color {
    /// A number that names no color.
    Unknown,
    /// Color number 30.
    BerryRed,
    /// Color number 31.
    Red,
    /// Color number 32.
    Orange,
    /// Color number 33.
    Yellow,
    /// Color number 34.
    OliveGreen,
    /// Color number 35.
    LimeGreen,
    /// Color number 36.
    Green,
    /// Color number 37.
    MintGreen,
    /// Color number 38.
    Teal,
    /// Color number 39.
    SkyBlue,
    /// Color number 40.
    LightBlue,
    /// Color number 41.
    Blue,
    /// Color number 42.
    Grape,
    /// Color number 43.
    Violet,
    /// Color number 44.
    Lavender,
    /// Color number 45.
    Magenta,
    /// Color number 46.
    Salmon,
    /// Color number 47.
    Charcoal,
    /// Color number 48.
    Grey,
    /// Color number 49.
    Taupe,
}

impl Color {
    /// The number of the color; 0 for [`Color::Unknown`].
    pub open spec fn spec_code(self) -> u16 {
        match self {
            Color::Unknown => 0,
            Color::BerryRed => 30,
            Color::Red => 31,
            Color::Orange => 32,
            Color::Yellow => 33,
            Color::OliveGreen => 34,
            Color::LimeGreen => 35,
            Color::Green => 36,
            Color::MintGreen => 37,
            Color::Teal => 38,
            Color::SkyBlue => 39,
            Color::LightBlue => 40,
            Color::Blue => 41,
            Color::Grape => 42,
            Color::Violet => 43,
            Color::Lavender => 44,
            Color::Magenta => 45,
            Color::Salmon => 46,
            Color::Charcoal => 47,
            Color::Grey => 48,
            Color::Taupe => 49,
        }
    }

    /// The number that the API uses for the color.
    pub fn code(&self) -> (r: u16)
        ensures
            r == self.spec_code(),
    {
        match self {
            Color::Unknown => 0,
            Color::BerryRed => 30,
            Color::Red => 31,
            Color::Orange => 32,
            Color::Yellow => 33,
            Color::OliveGreen => 34,
            Color::LimeGreen => 35,
            Color::Green => 36,
            Color::MintGreen => 37,
            Color::Teal => 38,
            Color::SkyBlue => 39,
            Color::LightBlue => 40,
            Color::Blue => 41,
            Color::Grape => 42,
            Color::Violet => 43,
            Color::Lavender => 44,
            Color::Magenta => 45,
            Color::Salmon => 46,
            Color::Charcoal => 47,
            Color::Grey => 48,
            Color::Taupe => 49,
        }
    }

    /// The color with the given number; [`Color::Unknown`] for a number that names none.
    pub fn from_code(v: u16) -> (r: Color)
        ensures
            30 <= v <= 49 ==> r.spec_code() == v,
            !(30 <= v <= 49) ==> r == Color::Unknown,
    {
        match v {
            30 => Color::BerryRed,
            31 => Color::Red,
            32 => Color::Orange,
            33 => Color::Yellow,
            34 => Color::OliveGreen,
            35 => Color::LimeGreen,
            36 => Color::Green,
            37 => Color::MintGreen,
            38 => Color::Teal,
            39 => Color::SkyBlue,
            40 => Color::LightBlue,
            41 => Color::Blue,
            42 => Color::Grape,
            43 => Color::Violet,
            44 => Color::Lavender,
            45 => Color::Magenta,
            46 => Color::Salmon,
            47 => Color::Charcoal,
            48 => Color::Grey,
            49 => Color::Taupe,
            _ => Color::Unknown,
        }
    }
}

impl Default for Color {
    fn default() -> (r: Self)
        ensures
            r == Color::Unknown,
    {
        Color::Unknown
    }
}

/// CommentID describes the unique ID of a [`Comment`].
pub type CommentID = u64;

/// Where a comment is posted.
#[derive(Debug, Clone, Copy, PartialEq, Eq, Structural)]
pub enum ThreadID {
    /// The comment is attached to this project.
    Project {
        /// The ID of the [`Project`].
        project_id: ProjectID,
    },
    /// The comment sits under a task.
    Task {
        /// The ID of the [`Task`].
        task_id: TaskID,
    },
}

/// Comment describes a comment of the Todoist API.
#[derive(Debug, Clone)]
pub struct Comment {
    /// The unique ID of the comment.
    pub id: CommentID,
    /// Where the comment is attached.
    pub thread: ThreadID,
    /// When the comment was posted, in seconds since the Unix epoch.
    pub posted_at: i64,
    /// The comment text, with markdown.
    pub content: String,
    /// Optional attachment file description.
    pub attachment: Option<Attachment>,
}

/// Command used to create a new [`Comment`].
#[derive(Debug)]
pub struct CreateComment {
    /// The thread to attach the comment to.
    pub thread: ThreadID,
    /// The text of the comment; supports markdown.
    pub content: String,
}

/// An attachment of a comment; it carries no data yet and acts as a marker.
#[derive(Debug, Clone)]
pub struct Attachment {}

} // verus!
