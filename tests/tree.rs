use doist::rest::{Project, Task};
use doist::tree::{Tree, TreeError, TreeFlattenExt};

fn child(id: u64, parent: u64, content: &str) -> Task {
    Task {
        parent_id: Some(parent),
        ..Task::new(id, content)
    }
}

#[test]
fn test_tree_no_subitems() {
    let tasks = vec![
        Task::new(1, "one"),
        Task::new(2, "two"),
        Task::new(3, "three"),
    ];
    let trees = Tree::from_items(tasks).unwrap();
    assert_eq!(trees.len(), 3);
}

#[test]
fn test_tree_some_subtasks() {
    let tasks = vec![
        Task::new(1, "one"),
        Task::new(2, "two"),
        Task::new(3, "three"),
        Task {
            parent_id: Some(1),
            ..Task::new(4, "four")
        },
    ];
    let trees = Tree::from_items(tasks).unwrap();
    assert_eq!(trees.len(), 3);
    let task = trees.iter().filter(|t| t.item.id == 1).collect::<Vec<_>>();
    assert_eq!(task.len(), 1);
    let task = task[0];
    assert_eq!(task.subitems.len(), 1);
    assert_eq!(task.subitems[0].item.id, 4);
    for task in trees.into_iter().filter(|t| t.item.id != 1) {
        assert_eq!(task.subitems.len(), 0);
    }
}

#[test]
fn task_tree_complex_subtasks() {
    let tasks = vec![
        Task::new(1, "one"),
        Task {
            parent_id: Some(1),
            ..Task::new(2, "two")
        },
        Task {
            parent_id: Some(2),
            ..Task::new(3, "three")
        },
        Task {
            parent_id: Some(3),
            ..Task::new(4, "four")
        },
    ];
    let trees = Tree::from_items(tasks).unwrap();
    assert_eq!(trees.len(), 1);
    assert_eq!(trees[0].item.id, 1);
    assert_eq!(trees[0].depth, 0);
    assert_eq!(trees[0].subitems[0].item.id, 2);
    assert_eq!(trees[0].subitems[0].depth, 1);
    assert_eq!(trees[0].subitems[0].subitems[0].item.id, 3);
    assert_eq!(trees[0].subitems[0].subitems[0].depth, 2);
    assert_eq!(trees[0].subitems[0].subitems[0].subitems[0].item.id, 4);
    assert_eq!(trees[0].subitems[0].subitems[0].subitems[0].depth, 3);
}

#[test]
fn task_tree_no_parent() {
    let tasks = vec![
        Task {
            parent_id: Some(1),
            ..Task::new(2, "two")
        },
        Task {
            parent_id: Some(2),
            ..Task::new(3, "three")
        },
    ];
    let trees = Tree::from_items(tasks).unwrap();
    assert_eq!(trees.len(), 1);
    assert_eq!(trees[0].item.parent_id, None);
    assert_eq!(trees[0].subitems[0].item.id, 3);
}

#[test]
fn tree_from_empty_list() {
    let trees = Tree::<Task>::from_items(vec![]).unwrap();
    assert!(trees.is_empty());
}

#[test]
fn tree_child_listed_before_parent() {
    let tasks = vec![child(3, 2, "three"), child(2, 1, "two"), Task::new(1, "one")];
    let trees = Tree::from_items(tasks).unwrap();
    assert_eq!(trees.len(), 1);
    assert_eq!(trees[0].item.id, 1);
    assert_eq!(trees[0].subitems[0].item.id, 2);
    assert_eq!(trees[0].subitems[0].subitems[0].item.id, 3);
    assert_eq!(trees[0].subitems[0].subitems[0].depth, 2);
}

#[test]
fn tree_subitems_keep_list_order() {
    let tasks = vec![
        child(5, 1, "five"),
        Task::new(1, "one"),
        child(3, 1, "three"),
        child(4, 1, "four"),
    ];
    let trees = Tree::from_items(tasks).unwrap();
    let ids: Vec<u64> = trees[0].subitems.iter().map(|t| t.item.id).collect();
    assert_eq!(ids, vec![5, 3, 4]);
}

#[test]
fn tree_cycle_is_an_error() {
    let tasks = vec![Task::new(1, "one"), child(2, 3, "two"), child(3, 2, "three")];
    match Tree::from_items(tasks) {
        Err(e) => assert_eq!(e, TreeError::Unresolved { count: 2 }),
        Ok(_) => panic!("a cycle must not build"),
    }
}

#[test]
fn tree_self_parent_is_a_cycle() {
    let tasks = vec![child(7, 7, "seven"), child(8, 7, "eight")];
    match Tree::from_items(tasks) {
        Err(e) => assert_eq!(e, TreeError::Unresolved { count: 2 }),
        Ok(_) => panic!("a cycle must not build"),
    }
}

#[test]
fn tree_flatten_is_preorder() {
    let tasks = vec![
        Task::new(1, "one"),
        child(2, 1, "two"),
        child(3, 2, "three"),
        child(4, 1, "four"),
        Task::new(5, "five"),
    ];
    let trees = Tree::from_items(tasks).unwrap();
    let first: Vec<u64> = trees[0].flatten().iter().map(|t| t.item.id).collect();
    assert_eq!(first, vec![1, 2, 3, 4]);
    let all: Vec<u64> = trees.flat_tree().iter().map(|t| t.item.id).collect();
    assert_eq!(all, vec![1, 2, 3, 4, 5]);
}

#[test]
fn tree_find_by_id() {
    let tasks = vec![Task::new(1, "one"), child(2, 1, "two"), child(3, 2, "three")];
    let mut trees = Tree::from_items(tasks).unwrap();
    assert_eq!(trees[0].find(&3).map(|t| t.depth), Some(2));
    assert!(trees[0].find(&9).is_none());
    assert_eq!(TreeFlattenExt::find(&trees, 2).map(|t| t.item.id), Some(2));
    assert!(TreeFlattenExt::find(&trees, 9).is_none());
    if let Some(t) = trees.find_mut(3) {
        t.item.content = "changed".to_string();
    }
    assert_eq!(trees[0].subitems[0].subitems[0].item.content, "changed");
    if let Some(t) = trees[0].find_mut(&2) {
        t.item.order = 4;
    }
    assert_eq!(trees[0].subitems[0].item.order, 4);
    assert!(trees.find_mut(9).is_none());
}

#[test]
fn tree_new_is_a_leaf() {
    let t = Tree::new(Task::new(6, "six"));
    assert_eq!(t.item.id, 6);
    assert!(t.subitems.is_empty());
    assert_eq!(t.depth, 0);
}

#[test]
fn tree_keep_trees_keeps_ancestors() {
    let tasks = vec![
        Task::new(1, "one"),
        child(2, 1, "two"),
        child(3, 2, "three"),
        child(4, 1, "four"),
        Task::new(5, "five"),
    ];
    let trees = Tree::from_items(tasks).unwrap();
    let kept = trees.keep_trees(&vec![3]);
    assert_eq!(kept.len(), 1);
    let ids: Vec<u64> = kept.flat_tree().iter().map(|t| t.item.id).collect();
    assert_eq!(ids, vec![1, 2, 3]);
    assert_eq!(kept[0].subitems[0].subitems[0].depth, 2);
}

#[test]
fn tree_keep_trees_with_no_match_is_empty() {
    let trees = Tree::from_items(vec![Task::new(1, "one"), child(2, 1, "two")]).unwrap();
    assert!(trees.keep_trees(&vec![42]).is_empty());
}

#[test]
fn tree_roots_follow_item_order() {
    let tasks = vec![Task::new(2, "two"), Task::new(1, "one"), child(3, 2, "three")];
    let trees = Tree::from_items(tasks).unwrap();
    let roots: Vec<u64> = trees.iter().map(|t| t.item.id).collect();
    assert_eq!(roots, vec![1, 2]);
    assert_eq!(trees[1].subitems[0].item.id, 3);
    let urgent = Task { priority: doist::rest::Priority::Urgent, ..Task::new(9, "urgent") };
    let trees = Tree::from_items(vec![Task::new(1, "one"), urgent]).unwrap();
    assert_eq!(trees[0].item.id, 9);
}

#[test]
fn project_roots_sorted_by_id() {
    let ps = vec![Project::new(30, "c"), Project::new(10, "a"), Project { parent_id: Some(30), ..Project::new(20, "b") }];
    let trees = Tree::from_items(ps).unwrap();
    let roots: Vec<u64> = trees.iter().map(|t| t.item.id).collect();
    assert_eq!(roots, vec![10, 30]);
    assert_eq!(trees[1].subitems[0].item.id, 20);
}

#[test]
fn find_returns_first_in_preorder() {
    let mut root = Tree::new(Task::new(1, "root"));
    let mut a = Tree::new(Task::new(2, "first"));
    a.subitems.push(Tree::new(Task::new(5, "deep")));
    root.subitems.push(a);
    root.subitems.push(Tree::new(Task::new(5, "later")));
    assert_eq!(root.find(&5).map(|t| t.item.content.clone()), Some("deep".to_string()));
    let mut forest = vec![Tree::new(Task::new(7, "x")), root];
    assert_eq!(TreeFlattenExt::find(&forest, 5).map(|t| t.item.content.clone()), Some("deep".to_string()));
    if let Some(t) = forest.find_mut(5) {
        t.item.order = 3;
    }
    assert_eq!(forest[1].subitems[0].subitems[0].item.order, 3);
    assert_eq!(forest[1].subitems[1].item.order, 0);
}
