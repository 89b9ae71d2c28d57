use std::cmp::Ordering;

use doist::config::{default_filter, Config, ConfigError, Filter, TODOIST_API_URL};
use doist::priority::Priority as CliPriority;
use doist::projects::filtered_projects;
use doist::rest::{
    sort_tasks, Color, zero_to_none, DueDate, ExactTime, Label, Priority, Project, Section, Task, TaskDue,
    UpdateTask,
};
use doist::tasks::{
    completion_update, create_step, edit_choice, edit_option, menu_action, new_task,
    priority_menu_default, task_menu, task_option, task_update, EditOption, TaskOption, CreateStep, EditError, MenuAction, Selection,
    TaskFilter, TaskMenu, TaskOrInteractive,
};
use doist::tree::Tree;

#[test]
fn select_filter() {
    let cfg = Config {
        default_filter: "all".to_owned(),
        ..Default::default()
    };

    let f = Filter::new(None);
    assert!(f.select(&cfg) == "all".to_owned());
    let f = Filter::new(Some("today".to_owned()));
    assert!(f.select(&cfg) == "today".to_owned());
}

#[test]
fn config_defaults_and_endpoint() {
    assert_eq!(default_filter(), "(today | overdue)");
    let cfg = Config::default();
    assert_eq!(cfg.default_filter, "(today | overdue)");
    assert_eq!(cfg.endpoint(), Err(ConfigError::NoToken));
    let cfg = Config { token: Some("SECRET-REDACTED".to_string()), ..Default::default() };
    assert_eq!(
        cfg.endpoint(),
        Ok(("SECRET-REDACTED".to_string(), TODOIST_API_URL.to_string()))
    );
    let cfg = Config {
        token: Some("t".to_string()),
        url: Some("http://localhost:8080/".to_string()),
        ..Default::default()
    };
    assert_eq!(cfg.endpoint().unwrap().1, "http://localhost:8080/");
    let mut f = Filter::new(None);
    f.set_filter(Some("#inbox"));
    assert_eq!(f.select(&cfg), "#inbox");
}

#[test]
fn priorities_convert() {
    assert_eq!(CliPriority::try_from(1), Ok(CliPriority::Urgent));
    assert_eq!(CliPriority::try_from(4), Ok(CliPriority::Normal));
    assert!(CliPriority::try_from(0).is_err());
    assert!(CliPriority::try_from(5).is_err());
    assert_eq!(Priority::from(CliPriority::Urgent), Priority::Urgent);
    assert_eq!(Priority::from(CliPriority::High), Priority::High);
    assert_eq!(Priority::Urgent.value(), 4);
    assert_eq!(Priority::from_value(2), Some(Priority::High));
    assert_eq!(Priority::from_value(9), None);
    assert_eq!(Priority::Urgent.ui_name(), "p1");
    assert_eq!(Priority::Normal.ui_name(), "p4");
    assert_eq!(Priority::default(), Priority::Normal);
}

fn due_at(t: Task, timestamp: i64) -> Task {
    Task {
        due: Some(DueDate {
            human_readable: "soon".to_string(),
            date: "2024-01-01".to_string(),
            recurring: false,
            exact: Some(ExactTime { timestamp, offset: 0, timezone: "UTC".to_string() }),
        }),
        ..t
    }
}

#[test]
fn tasks_order_like_the_ui() {
    let plain = Task::new(1, "plain");
    let urgent = Task { priority: Priority::Urgent, ..Task::new(2, "urgent") };
    let early = due_at(Task::new(3, "early"), 100);
    let late = due_at(Task::new(4, "late"), 200);
    assert_eq!(early.compare(&late), Ordering::Less);
    assert_eq!(late.compare(&plain), Ordering::Less);
    assert_eq!(plain.compare(&late), Ordering::Greater);
    assert_eq!(urgent.compare(&plain), Ordering::Less);
    let ordered = Task { order: -1, ..Task::new(9, "ordered") };
    assert_eq!(ordered.compare(&plain), Ordering::Less);
    assert_eq!(Task::new(5, "a").compare(&Task::new(6, "b")), Ordering::Less);
    assert_eq!(Task::new(5, "a").compare(&Task::new(5, "b")), Ordering::Equal);
}

#[test]
fn sections_and_labels_order() {
    let a = Section { order: 2, ..Section::new(1, 0, "a") };
    let b = Section::new(2, 0, "b");
    assert_eq!(a.compare(&b), Ordering::Greater);
    assert_eq!(b.compare(&Section::new(3, 0, "c")), Ordering::Less);
    let l = Label::new(4, "x");
    assert_eq!(l.compare(&Label::new(3, "y")), Ordering::Greater);
    assert_eq!(l.compare(&Label { order: 1, ..Label::new(1, "z") }), Ordering::Less);
}

#[test]
fn zero_ids_read_as_none() {
    assert_eq!(zero_to_none(Some(0)), None);
    assert_eq!(zero_to_none(Some(12)), Some(12));
    assert_eq!(zero_to_none(None), None);
}

#[test]
fn update_task_emptiness() {
    assert!(UpdateTask::default().is_empty());
    let u = UpdateTask { priority: Some(Priority::High), ..Default::default() };
    assert!(!u.is_empty());
}

#[test]
fn menus_map_choices() {
    assert_eq!(create_step(None), CreateStep::Abort);
    assert_eq!(create_step(Some(0)), CreateStep::Submit);
    assert_eq!(create_step(Some(1)), CreateStep::Edit(Selection::TaskName));
    assert_eq!(create_step(Some(5)), CreateStep::Edit(Selection::Priority));
    assert_eq!(Selection::from(3), Selection::Project);
    assert_eq!(Selection::Due.title(), "Due");
    assert_eq!(menu_action(None, "x"), MenuAction::Nothing);
    assert_eq!(menu_action(Some(0), "x"), MenuAction::CreateTask);
    assert_eq!(menu_action(Some(1), "x"), MenuAction::EditFilter);
    assert_eq!(menu_action(Some(2), "x"), MenuAction::SetFilter("all".to_string()));
    assert_eq!(menu_action(Some(3), "x"), MenuAction::SetFilter("#inbox".to_string()));
    assert_eq!(menu_action(Some(4), "x"), MenuAction::SetFilter("x".to_string()));
    assert_eq!(
        menu_action(Some(5), "x"),
        MenuAction::SetFilter("(today | overdue)".to_string())
    );
}

#[test]
fn sort_tasks_orders_like_the_ui() {
    let tasks = vec![
        Task::new(3, "plain"),
        due_at(Task::new(4, "late"), 200),
        Task { priority: Priority::Urgent, ..Task::new(5, "urgent") },
        due_at(Task::new(6, "early"), 100),
        Task::new(1, "first plain"),
    ];
    let ids: Vec<u64> = sort_tasks(tasks).iter().map(|t| t.id).collect();
    assert_eq!(ids, vec![6, 4, 5, 1, 3]);
    assert!(sort_tasks(vec![]).is_empty());
}

#[test]
fn edit_builds_an_update() {
    assert!(matches!(task_update(None, None, None, None, None), Err(EditError::NoChanges)));
    assert!(matches!(task_update(None, None, None, Some(vec![]), None), Err(EditError::NoChanges)));
    let u = task_update(Some("new".to_string()), None, Some(CliPriority::Urgent), Some(vec![7]), Some("tomorrow".to_string())).unwrap();
    assert_eq!(u.content.as_deref(), Some("new"));
    assert_eq!(u.priority, Some(Priority::Urgent));
    assert_eq!(u.label_ids, Some(vec![7]));
    assert!(matches!(u.due, Some(TaskDue::String(ref d)) if d == "tomorrow"));
    assert!(u.description.is_none());
}

#[test]
fn filter_projects() {
    let ps = vec![Project::new(1, "one"), Project::new(2, "two"), Project::new(3, "three")];
    let ts = vec![create_task(1, 1, "one"), create_task(2, 1, "two"), create_task(3, 2, "three")];
    let projects = filtered_projects(&ps, &ts);
    assert_eq!(projects.len(), 2);
    assert_eq!(projects[0].0.id, 1);
    assert_eq!(projects[0].1, 2);
    assert_eq!(projects[1].0.id, 2);
    assert_eq!(projects[1].1, 1);
}

fn create_task(id: u64, project_id: u64, content: &str) -> Task {
    let mut task = Task::new(id, content);
    task.project_id = project_id;
    task
}

#[test]
fn task_filter_narrows_top_level_tasks() {
    let mut a = create_task(1, 10, "a");
    a.section_id = Some(5);
    a.label_ids = vec![100, 200];
    let b = create_task(2, 10, "b");
    let c = create_task(3, 20, "c");
    let trees = Tree::from_items(vec![a, b, c]).unwrap();
    let f = TaskFilter { project: Some(10), section: None, labels: vec![] };
    let kept: Vec<u64> = f.apply(trees).iter().map(|t| t.item.id).collect();
    assert_eq!(kept, vec![1, 2]);
    let f = TaskFilter { project: None, section: Some(5), labels: vec![] };
    assert!(f.accepts(&Task { section_id: Some(5), ..Task::new(9, "x") }));
    assert!(!f.accepts(&Task::new(9, "x")));
    let f = TaskFilter { project: None, section: None, labels: vec![300, 200] };
    assert!(f.accepts(&Task { label_ids: vec![200], ..Task::new(9, "x") }));
    assert!(!f.accepts(&Task { label_ids: vec![100], ..Task::new(9, "x") }));
}

#[test]
fn colors_by_number() {
    assert_eq!(Color::from_code(30), Color::BerryRed);
    assert_eq!(Color::from_code(49), Color::Taupe);
    assert_eq!(Color::from_code(7), Color::Unknown);
    assert_eq!(Color::from_code(50), Color::Unknown);
    assert_eq!(Color::Grape.code(), 42);
    assert_eq!(Color::default().code(), 0);
}

#[test]
fn task_menu_entries() {
    let trees = Tree::from_items(vec![Task::new(1, "a"), Task::new(2, "b")]).unwrap();
    let flat: Vec<&Tree<Task>> = trees.iter().collect();
    assert!(matches!(task_menu(&flat, None), TaskMenu::Nothing));
    assert!(matches!(task_menu(&flat, Some(0)), TaskMenu::Menu));
    match task_menu(&flat, Some(2)) {
        TaskMenu::Select(t) => assert_eq!(t.item.id, 2),
        _ => panic!("entry 2 is the second task"),
    }
    let t = TaskOrInteractive::with_id(5);
    assert_eq!(t.id, Some(5));
    assert!(t.filter.filter.is_none());
}

#[test]
fn update_nochanges() {
    let t = TaskOrInteractive::with_id(123);
    assert_eq!(t.id, Some(123));
    let result = task_update(None, None, None, None, None);
    assert!(result.is_err());
    let result = result.unwrap_err();
    assert!(result.message().contains("No changes to apply"), "{:?}", result);
}

#[test]
fn task_and_edit_menus() {
    assert_eq!(task_option(Some(0)), TaskOption::Close);
    assert_eq!(task_option(Some(1)), TaskOption::Complete);
    assert_eq!(task_option(Some(2)), TaskOption::Edit);
    assert_eq!(task_option(Some(3)), TaskOption::Quit);
    assert_eq!(task_option(None), TaskOption::Quit);
    assert_eq!(edit_option(Some(0)), EditOption::Name);
    assert_eq!(edit_option(Some(3)), EditOption::Priority);
    assert_eq!(edit_option(None), EditOption::Quit);
    assert_eq!(priority_menu_default(Priority::Urgent), 0);
    assert_eq!(priority_menu_default(Priority::Normal), 3);
}

#[test]
fn edit_choice_builds_one_field() {
    let u = edit_choice(EditOption::Name, "renamed".to_string(), 0).unwrap();
    assert_eq!(u.content.as_deref(), Some("renamed"));
    assert!(u.priority.is_none());
    let u = edit_choice(EditOption::Priority, String::new(), 0).unwrap();
    assert_eq!(u.priority, Some(Priority::Urgent));
    let u = edit_choice(EditOption::Priority, String::new(), 3).unwrap();
    assert_eq!(u.priority, Some(Priority::Normal));
    let u = edit_choice(EditOption::Due, "friday".to_string(), 0).unwrap();
    assert!(matches!(u.due, Some(TaskDue::String(ref d)) if d == "friday"));
    assert!(matches!(edit_choice(EditOption::Quit, String::new(), 0), Err(EditError::NoChanges)));
}

#[test]
fn completion_and_new_task() {
    let u = completion_update(1_700_000_000);
    assert!(matches!(u.due, Some(TaskDue::DateTime(1_700_000_000))));
    assert!(u.content.is_none());
    let c = new_task(
        "buy milk".to_string(),
        Some("2 litres".to_string()),
        Some(CliPriority::High),
        Some(10),
        Some(4),
        vec![7, 8],
        Some("tomorrow".to_string()),
    );
    assert_eq!(c.content, "buy milk");
    assert_eq!(c.description.as_deref(), Some("2 litres"));
    assert_eq!(c.priority, Some(Priority::High));
    assert_eq!(c.project_id, Some(10));
    assert_eq!(c.section_id, Some(4));
    assert_eq!(c.label_ids, vec![7, 8]);
    assert!(matches!(c.due, Some(TaskDue::String(ref d)) if d == "tomorrow"));
}
