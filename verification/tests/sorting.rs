use planifie::reader::parse_tasks;
use planifie::task::{sort_tasks, Task};
use planifie::topic::{Entry, EntryKind, Manager};

fn names(tasks: &Vec<Task>) -> Vec<String> {
    tasks.iter().map(|t| t.name().to_string()).collect()
}

#[test]
fn sort_tasks_puts_earlier_dues_first_and_never_last() {
    let text = "- [ ] someday\n- [ ] late (20/01/22)\n- [ ] early (10/01/22)\n- [ ] mid (15/01/22 08:00)\n";
    let (mut tasks, _) = parse_tasks(text, 2);
    sort_tasks(&mut tasks);
    assert_eq!(names(&tasks), vec!["early", "mid", "late", "someday"]);
}

#[test]
fn sort_tasks_keeps_the_order_of_equal_dues() {
    let text = "- [ ] n1\n- [ ] d20 (20/01/22)\n- [ ] a (10/01/22)\n- [ ] i (10/01/22-12/01/22)\n- [ ] b (10/01/22)\n- [ ] n2\n";
    let (mut tasks, _) = parse_tasks(text, 2);
    sort_tasks(&mut tasks);
    assert_eq!(names(&tasks), vec!["a", "i", "b", "d20", "n1", "n2"]);
}

#[test]
fn sort_tasks_sorts_the_subtasks_too() {
    let text = "- [ ] A\n  note\n  - [ ] z (20/01/22)\n    - [ ] q\n    - [ ] p (01/01/22)\n  - [ ] y (10/01/22)\n- [ ] B (01/01/22)\n";
    let (mut tasks, _) = parse_tasks(text, 2);
    sort_tasks(&mut tasks);
    assert_eq!(names(&tasks), vec!["B", "A"]);
    assert_eq!(tasks[1].desc(), Some("note"));
    assert_eq!(names(tasks[1].subtasks()), vec!["y", "z"]);
    assert_eq!(names(tasks[1].subtasks()[1].subtasks()), vec!["p", "q"]);
}

#[test]
fn sort_tasks_of_nothing_is_nothing() {
    let mut tasks: Vec<Task> = Vec::new();
    sort_tasks(&mut tasks);
    assert!(tasks.is_empty());
}

#[test]
fn topic_sort_sorts_every_topic_below() {
    let file = |parent: &str, name: &str, content: &str| Entry {
        path: format!("{}/{}", parent, name),
        name: name.to_string(),
        parent: parent.to_string(),
        parent_name: parent.rsplit('/').next().unwrap().to_string(),
        kind: EntryKind::File { content: Some(content.to_string()) },
    };
    let root = Entry {
        path: "/plan".to_string(),
        name: "plan".to_string(),
        parent: "/".to_string(),
        parent_name: "".to_string(),
        kind: EntryKind::Folder {
            entries: vec![
                file("/plan", "about.md", "- [ ] b (02/01/22)\n- [ ] a (01/01/22)\n"),
                file("/plan", "work.md", "- [ ] y\n- [ ] x (01/01/22)\n  - [ ] x2 (02/01/22)\n  - [ ] x1 (01/01/22)\n"),
                file("/plan", "home.md", "- [ ] only\n"),
            ],
        },
    };
    let manager = Manager::new("/plan".to_string());
    let mut topic = manager.load(&root).unwrap();
    topic.sort();
    assert_eq!(topic.name(), "root");
    assert_eq!(topic.file_path(), Some("/plan/about.md"));
    assert_eq!(names(topic.tasks()), vec!["a", "b"]);
    let subs: Vec<&str> = topic.subtopics().iter().map(|t| t.name()).collect();
    assert_eq!(subs, vec!["work", "home"]);
    assert_eq!(names(topic.subtopics()[0].tasks()), vec!["x", "y"]);
    assert_eq!(names(topic.subtopics()[0].tasks()[0].subtasks()), vec!["x1", "x2"]);
    assert_eq!(names(topic.subtopics()[1].tasks()), vec!["only"]);
}
