use planifie::due::Due;
use planifie::moment::{Civil, Moment};
use planifie::reader::{parse_tasks, read_task, task_from_groups, Diagnostic, Reader};
use planifie::task::{describe, insert, Task};

fn day(d: u32) -> Moment {
    Moment::new(Civil { year: 2022, month: 1, day: d, hour: 0, minute: 0 }).unwrap()
}

fn names(tasks: &Vec<Task>) -> Vec<String> {
    tasks.iter().map(|t| t.name().to_string()).collect()
}

#[test]
fn duplicate_name_policy() {
    let (tasks, notes) = parse_tasks("- [ ] A (01/01/22)\n- [ ] A (02/01/22)", 2);
    assert_eq!(tasks.len(), 1);
    assert_eq!(tasks[0].name(), "A");
    assert_eq!(*tasks[0].due(), Due::Day(day(1)));
    assert_eq!(notes, vec![Diagnostic::DuplicateName { line: 1 }]);
}

#[test]
fn duplicate_names_are_allowed_under_different_parents() {
    let (tasks, notes) = parse_tasks("- [ ] A\n  - [ ] x\n- [ ] B\n  - [ ] x\n  - [ ] x", 2);
    assert_eq!(names(&tasks), vec!["A", "B"]);
    assert_eq!(names(tasks[0].subtasks()), vec!["x"]);
    assert_eq!(names(tasks[1].subtasks()), vec!["x"]);
    assert_eq!(notes, vec![Diagnostic::DuplicateName { line: 4 }]);
}

#[test]
fn fenced_block_escaping() {
    let text = "- [ ] before\n```\n- [ ] hidden\n```\n- [ ] after";
    let (tasks, notes) = parse_tasks(text, 2);
    assert_eq!(names(&tasks), vec!["before", "after"]);
    assert!(notes.is_empty());
}

#[test]
fn fence_with_two_markers_on_one_line_changes_nothing() {
    let (tasks, _) = parse_tasks("``` code ```\n- [ ] shown", 2);
    assert_eq!(names(&tasks), vec!["shown"]);
}

#[test]
fn fence_inside_a_description_hides_its_lines() {
    let text = "- [ ] A\n  intro\n  ```\n  - [ ] not a task\n  ```\n  - [ ] sub";
    let (tasks, _) = parse_tasks(text, 2);
    assert_eq!(names(&tasks), vec!["A"]);
    assert_eq!(tasks[0].desc(), Some("intro\n```"));
    assert_eq!(names(tasks[0].subtasks()), vec!["sub"]);
}

#[test]
fn checkbox_says_whether_the_task_is_done() {
    let (tasks, _) = parse_tasks("- [ ] open\n- [X] closed", 2);
    assert!(!tasks[0].done());
    assert!(tasks[1].done());
}

#[test]
fn task_line_holds_name_due_and_annotation() {
    let (tasks, notes) = parse_tasks("- [ ] pay rent (10/01/22) @ home", 2);
    assert_eq!(tasks.len(), 1);
    assert_eq!(tasks[0].name(), "pay rent");
    assert_eq!(*tasks[0].due(), Due::Day(day(10)));
    assert_eq!(tasks[0].special(), Some("home"));
    assert_eq!(tasks[0].desc(), None);
    assert!(notes.is_empty());
}

#[test]
fn task_line_may_hold_an_interval() {
    let (tasks, _) = parse_tasks("- [ ] trip (10/01/22-20/01/22)", 2);
    assert_eq!(*tasks[0].due(), Due::Interval(day(10), day(20)));
    assert_eq!(tasks[0].special(), None);
}

#[test]
fn bare_name_is_never_due() {
    let (tasks, notes) = parse_tasks("- [ ] buy milk", 2);
    assert_eq!(tasks[0].name(), "buy milk");
    assert_eq!(*tasks[0].due(), Due::Never);
    assert_eq!(tasks[0].special(), None);
    assert!(notes.is_empty());
}

#[test]
fn unreadable_due_is_never_and_is_reported() {
    let (tasks, notes) = parse_tasks("- [ ] ok (10/01/22)\n- [ ] email (-)\n- [ ] call (soon)", 2);
    assert_eq!(names(&tasks), vec!["ok", "email", "call"]);
    assert_eq!(*tasks[1].due(), Due::Never);
    assert_eq!(*tasks[2].due(), Due::Never);
    assert_eq!(
        notes,
        vec![Diagnostic::UnreadableDue { line: 1 }, Diagnostic::UnreadableDue { line: 2 }]
    );
}

#[test]
fn indentation_nests_tasks() {
    let text = "- [ ] A\n  - [ ] B\n    - [ ] C\n  - [ ] D\n- [ ] E\n";
    let (tasks, _) = parse_tasks(text, 2);
    assert_eq!(names(&tasks), vec!["A", "E"]);
    assert_eq!(names(tasks[0].subtasks()), vec!["B", "D"]);
    assert_eq!(names(tasks[0].subtasks()[0].subtasks()), vec!["C"]);
    assert!(tasks[1].subtasks().is_empty());
}

#[test]
fn indentation_goes_by_whole_units() {
    let (tasks, _) = parse_tasks("- [ ] A\n   - [ ] B\n - [ ] C", 2);
    assert_eq!(names(&tasks), vec!["A", "C"]);
    assert_eq!(names(tasks[0].subtasks()), vec!["B"]);
    let (wide, _) = parse_tasks("- [ ] A\n    - [ ] B\n  - [ ] C", 4);
    assert_eq!(names(&wide), vec!["A", "C"]);
    assert_eq!(names(wide[0].subtasks()), vec!["B"]);
}

#[test]
fn task_deeper_than_the_tree_joins_the_deepest_list() {
    let (tasks, _) = parse_tasks("      - [ ] A\n      - [ ] B\n        - [ ] C", 2);
    assert_eq!(names(&tasks), vec!["A"]);
    assert_eq!(names(tasks[0].subtasks()), vec!["B"]);
    assert_eq!(names(tasks[0].subtasks()[0].subtasks()), vec!["C"]);
}

#[test]
fn lines_below_a_task_describe_it() {
    let text = "- [ ] A\n  first line\n  second line\n- [ ] B";
    let (tasks, _) = parse_tasks(text, 2);
    assert_eq!(tasks[0].desc(), Some("first line\nsecond line"));
    assert_eq!(tasks[1].desc(), None);
}

#[test]
fn description_goes_to_the_deepest_last_task() {
    let text = "- [ ] A\n  - [ ] B\n    about b\n  about a\n      far too deep";
    let (tasks, _) = parse_tasks(text, 2);
    assert_eq!(tasks[0].desc(), Some("about a"));
    assert_eq!(tasks[0].subtasks()[0].desc(), Some("about b\nfar too deep"));
}

#[test]
fn line_at_depth_zero_is_dropped_and_closes_the_task() {
    let text = "- [ ] A\nstray\n  lost as well\n- [ ] B\n  kept";
    let (tasks, _) = parse_tasks(text, 2);
    assert_eq!(tasks[0].desc(), None);
    assert_eq!(tasks[1].desc(), Some("kept"));
}

#[test]
fn blank_lines_change_nothing() {
    let text = "\n- [ ] A\n\n  one\n   \n  two\n\n";
    let (tasks, _) = parse_tasks(text, 2);
    assert_eq!(names(&tasks), vec!["A"]);
    assert_eq!(tasks[0].desc(), Some("one\ntwo"));
}

#[test]
fn lines_may_end_in_carriage_return() {
    let (tasks, _) = parse_tasks("- [ ] A (10/01/22)\r\n  note\r\n- [X] B\r\n", 2);
    assert_eq!(names(&tasks), vec!["A", "B"]);
    assert_eq!(*tasks[0].due(), Due::Day(day(10)));
    assert_eq!(tasks[0].desc(), Some("note"));
}

#[test]
fn empty_text_holds_no_task() {
    let (tasks, notes) = parse_tasks("", 2);
    assert!(tasks.is_empty());
    assert!(notes.is_empty());
}

#[test]
fn read_task_goes_by_the_last_brackets() {
    let (task, unreadable) = read_task(true, "call (Bob) (10/01/22) @ phone @ home");
    assert!(task.done());
    assert_eq!(task.name(), "call (Bob)");
    assert_eq!(*task.due(), Due::Day(day(10)));
    assert_eq!(task.special(), Some("phone @ home"));
    assert!(!unreadable);
}

#[test]
fn read_task_without_a_name_before_the_bracket_is_all_name() {
    let (task, unreadable) = read_task(false, "(10/01/22)");
    assert_eq!(task.name(), "(10/01/22)");
    assert_eq!(*task.due(), Due::Never);
    assert!(!unreadable);
}

#[test]
fn task_from_groups_reads_what_was_found() {
    let groups = Some(vec![
        Some("x (10/01/22) @ t".to_string()),
        Some(" x ".to_string()),
        Some("10/01/22".to_string()),
        Some("t".to_string()),
    ]);
    let (task, unreadable) = task_from_groups(false, "ignored", groups);
    assert_eq!(task.name(), "x");
    assert_eq!(*task.due(), Due::Day(day(10)));
    assert_eq!(task.special(), Some("t"));
    assert!(!unreadable);
}

#[test]
fn task_from_groups_without_groups_takes_the_line() {
    let (task, unreadable) = task_from_groups(true, "  plain  ", None);
    assert_eq!(task.name(), "plain");
    assert_eq!(*task.due(), Due::Never);
    assert_eq!(task.special(), None);
    assert!(task.done());
    assert!(!unreadable);
    let short = Some(vec![Some("a".to_string()), Some("b".to_string())]);
    let (other, _) = task_from_groups(false, "line", short);
    assert_eq!(other.name(), "line");
    let holes = Some(vec![Some("a".to_string()), None, Some("b".to_string()), None]);
    let (third, _) = task_from_groups(false, "line", holes);
    assert_eq!(third.name(), "line");
}

#[test]
fn task_from_groups_reports_an_unreadable_due() {
    let groups = Some(vec![
        Some("x (soon)".to_string()),
        Some("x ".to_string()),
        Some("soon".to_string()),
        None,
    ]);
    let (task, unreadable) = task_from_groups(false, "x (soon)", groups);
    assert_eq!(task.name(), "x");
    assert_eq!(*task.due(), Due::Never);
    assert_eq!(task.special(), None);
    assert!(unreadable);
}

#[test]
fn reader_reads_line_by_line() {
    let mut reader = Reader::new();
    let lines = ["- [ ] A", "  note", "  - [X] B (soon)", "- [ ] A"];
    for (index, line) in lines.iter().enumerate() {
        let chars: Vec<char> = line.chars().collect();
        reader.feed(&chars, 2, index);
    }
    let (tasks, notes) = reader.finish();
    assert_eq!(names(&tasks), vec!["A"]);
    assert_eq!(tasks[0].desc(), Some("note"));
    assert_eq!(names(tasks[0].subtasks()), vec!["B"]);
    assert!(tasks[0].subtasks()[0].done());
    assert_eq!(
        notes,
        vec![Diagnostic::UnreadableDue { line: 2 }, Diagnostic::DuplicateName { line: 3 }]
    );
}

#[test]
fn insert_descends_along_the_last_tasks() {
    let mut tasks: Vec<Task> = Vec::new();
    assert!(insert(&mut tasks, 0, Task::new(false, "A".to_string(), Due::Never, None)));
    assert!(insert(&mut tasks, 0, Task::new(false, "B".to_string(), Due::Never, None)));
    assert!(insert(&mut tasks, 1, Task::new(false, "C".to_string(), Due::Never, None)));
    assert!(insert(&mut tasks, 5, Task::new(false, "D".to_string(), Due::Never, None)));
    assert!(!insert(&mut tasks, 1, Task::new(true, "C".to_string(), Due::Never, None)));
    assert!(!insert(&mut tasks, 0, Task::new(true, "A".to_string(), Due::Never, None)));
    assert_eq!(names(&tasks), vec!["A", "B"]);
    assert!(tasks[0].subtasks().is_empty());
    assert_eq!(names(tasks[1].subtasks()), vec!["C"]);
    assert_eq!(names(tasks[1].subtasks()[0].subtasks()), vec!["D"]);
    assert!(!tasks[1].subtasks()[0].done());
}

#[test]
fn describe_needs_a_task_and_a_depth() {
    let mut tasks: Vec<Task> = Vec::new();
    assert!(!describe(&mut tasks, 1, "x"));
    insert(&mut tasks, 0, Task::new(false, "A".to_string(), Due::Never, None));
    assert!(!describe(&mut tasks, 0, "x"));
    assert_eq!(tasks[0].desc(), None);
    assert!(describe(&mut tasks, 3, "one"));
    assert!(describe(&mut tasks, 1, "two"));
    assert_eq!(tasks[0].desc(), Some("one\ntwo"));
}
