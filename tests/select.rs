use doist::labels::{LabelChoice, LabelError, LabelSelect, Selection as LabelMode};
use doist::rest::{Label, Project, Section};
use doist::select::{best_match, find_by_id, fuzz_select, section_choice, sections_of, SelectError, Selection};

fn named(items: &[(u64, &str)]) -> Vec<Project> {
    items.iter().map(|(id, name)| Project::new(*id, name)).collect()
}

#[test]
fn interactive_select_best() {
    let select = named(&[(0, "zero"), (1, "one"), (2, "two"), (3, "three")]);
    assert_eq!(fuzz_select(&select, "one").unwrap().id, 1);
    assert_eq!(fuzz_select(&select, "w").unwrap().id, 2);
    assert!(fuzz_select(&select, "what").is_err());
}

#[test]
fn fuzz_select_select_best() {
    let select = named(&[(0, "zero"), (1, "one"), (2, "two"), (3, "three")]);
    assert_eq!(fuzz_select(&select, "one").unwrap().id, 1);
    assert_eq!(fuzz_select(&select, "w").unwrap().id, 2);
    assert!(fuzz_select(&select, "what").is_err());
}

#[test]
fn fuzz_select_errors() {
    let none: Vec<Project> = vec![];
    assert_eq!(fuzz_select(&none, "one").err(), Some(SelectError::NoItems));
    let select = named(&[(0, "zero")]);
    assert_eq!(fuzz_select(&select, "qq").err(), Some(SelectError::NoMatch));
}

#[test]
fn best_match_picks_last_of_equal_scores() {
    assert_eq!(best_match(&vec![]), Err(SelectError::NoItems));
    assert_eq!(best_match(&vec![None, None]), Err(SelectError::NoMatch));
    assert_eq!(best_match(&vec![Some(3), None, Some(7), Some(2)]), Ok(2));
    assert_eq!(best_match(&vec![Some(5), Some(1), Some(5)]), Ok(2));
    assert_eq!(best_match(&vec![Some(-4)]), Ok(0));
}

#[test]
fn selection_by_name_or_id() {
    let items = named(&[(10, "groceries"), (11, "work")]);
    let by_id = Selection { name: None, id: Some(11) };
    assert_eq!(by_id.optional(&items).unwrap().map(|p| p.id), Some(11));
    let missing = Selection { name: None, id: Some(12) };
    assert!(missing.optional(&items).unwrap().is_none());
    let nothing = Selection { name: None, id: None };
    assert!(nothing.optional(&items).unwrap().is_none());
    let by_name = Selection { name: Some("groc".to_string()), id: Some(11) };
    assert_eq!(by_name.optional(&items).unwrap().map(|p| p.id), Some(10));
    assert_eq!(find_by_id(&items, 10).map(|p| p.id), Some(10));
}

#[test]
fn sections_of_a_project_and_choice() {
    let sections = vec![
        Section::new(1, 100, "a"),
        Section::new(2, 200, "b"),
        Section::new(3, 100, "c"),
    ];
    let mine = sections_of(&sections, 100);
    let ids: Vec<u64> = mine.iter().map(|s| s.id).collect();
    assert_eq!(ids, vec![1, 3]);
    assert_eq!(section_choice(&mine, Some(0)), None);
    assert_eq!(section_choice(&mine, Some(2)), Some(3));
    assert_eq!(section_choice(&mine, None), None);
}

fn labels() -> Vec<Label> {
    vec![Label::new(1, "home"), Label::new(2, "errand"), Label::new(3, "office")]
}

#[test]
fn labels_by_id_and_name() {
    let all = labels();
    let sel = LabelSelect {
        label_names: Some(vec!["offi".to_string()]),
        label_ids: Some(vec![2]),
    };
    match sel.labels(&all, LabelMode::AllowEmpty).unwrap() {
        LabelChoice::Found(v) => {
            let ids: Vec<u64> = v.iter().map(|l| l.id).collect();
            assert_eq!(ids, vec![2, 3]);
        }
        LabelChoice::Choose => panic!("labels were named"),
    }
}

#[test]
fn labels_unknown_id_and_no_match() {
    let all = labels();
    let sel = LabelSelect { label_names: None, label_ids: Some(vec![9]) };
    assert!(matches!(sel.labels(&all, LabelMode::AllowEmpty), Err(LabelError::UnknownId(9))));
    let sel = LabelSelect { label_names: Some(vec!["zzz".to_string()]), label_ids: None };
    assert!(matches!(
        sel.labels(&all, LabelMode::AllowEmpty),
        Err(LabelError::Select(SelectError::NoMatch))
    ));
}

#[test]
fn labels_none_named() {
    let all = labels();
    let sel = LabelSelect { label_names: None, label_ids: None };
    assert!(matches!(sel.labels(&all, LabelMode::MustChoose), Ok(LabelChoice::Choose)));
    match sel.labels(&all, LabelMode::AllowEmpty) {
        Ok(LabelChoice::Found(v)) => assert!(v.is_empty()),
        _ => panic!("no labels were named"),
    }
}

#[test]
fn fuzz_select_empty_input_picks_last() {
    let select = named(&[(0, "zero"), (1, "one"), (2, "two")]);
    assert_eq!(fuzz_select(&select, "").unwrap().id, 2);
}
