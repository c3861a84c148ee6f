use planifie::due::Due;
use planifie::moment::{Civil, Moment};
use planifie::store::Change;
use planifie::task::{listing_line, Task};
use planifie::topic::{Entry, EntryKind, Manager, Topic};

fn file(parent: &str, name: &str, content: Option<&str>) -> Entry {
    Entry {
        path: format!("{}/{}", parent, name),
        name: name.to_string(),
        parent: parent.to_string(),
        parent_name: parent.rsplit('/').next().unwrap().to_string(),
        kind: EntryKind::File { content: content.map(|c| c.to_string()) },
    }
}

fn folder(parent: &str, name: &str, entries: Vec<Entry>) -> Entry {
    Entry {
        path: format!("{}/{}", parent, name),
        name: name.to_string(),
        parent: parent.to_string(),
        parent_name: parent.rsplit('/').next().unwrap().to_string(),
        kind: EntryKind::Folder { entries },
    }
}

fn write(path: &str, text: &str) -> Change {
    Change::Write { path: path.to_string(), text: text.to_string() }
}

fn remove(path: &str) -> Change {
    Change::Remove { path: path.to_string() }
}

fn create(path: &str) -> Change {
    Change::Create { path: path.to_string() }
}

fn disk() -> Entry {
    folder(
        "/me",
        "plan",
        vec![
            file("/me/plan", "about.md", Some("- [ ] top")),
            file("/me/plan", "work.md", Some("- [X] email\n  - [ ] inbox")),
            folder("/me/plan", "home", vec![file("/me/plan/home", "garden.md", Some("- [ ] mow"))]),
        ],
    )
}

#[test]
fn store_of_what_was_loaded_only_writes() {
    let manager = Manager::new("/me/plan".to_string());
    let topic = manager.load(&disk()).unwrap();
    assert_eq!(
        topic.store(&disk()),
        vec![
            write("/me/plan/about.md", "- [ ] top\n"),
            write("/me/plan/work.md", "- [X] email\n  - [ ] inbox\n"),
            write("/me/plan/home/about.md", ""),
            write("/me/plan/home/garden.md", "- [ ] mow\n"),
        ]
    );
}

#[test]
fn store_deletes_what_no_subtopic_claims() {
    let manager = Manager::new("/me/plan".to_string());
    let topic = manager.load(&disk()).unwrap();
    let now = folder(
        "/me",
        "plan",
        vec![
            file("/me/plan", "stray.txt", None),
            file("/me/plan", "work.md", Some("")),
            folder("/me/plan", "old", Vec::new()),
            folder(
                "/me/plan",
                "home",
                vec![
                    file("/me/plan/home", "garden.md", Some("")),
                    file("/me/plan/home", "shed.md", Some("- [ ] paint")),
                ],
            ),
        ],
    );
    assert_eq!(
        topic.store(&now),
        vec![
            write("/me/plan/about.md", "- [ ] top\n"),
            write("/me/plan/work.md", "- [X] email\n  - [ ] inbox\n"),
            write("/me/plan/home/about.md", ""),
            write("/me/plan/home/garden.md", "- [ ] mow\n"),
            remove("/me/plan/home/shed.md"),
            remove("/me/plan/stray.txt"),
            remove("/me/plan/old"),
        ]
    );
}

#[test]
fn store_makes_the_folders_that_are_missing() {
    let manager = Manager::new("/me/plan".to_string());
    let topic = manager.load(&disk()).unwrap();
    let empty = folder("/me", "plan", Vec::new());
    let expected = vec![
        write("/me/plan/about.md", "- [ ] top\n"),
        write("/me/plan/work.md", "- [X] email\n  - [ ] inbox\n"),
        create("/me/plan/home"),
        write("/me/plan/home/about.md", ""),
        write("/me/plan/home/garden.md", "- [ ] mow\n"),
    ];
    assert_eq!(topic.store(&empty), expected);
    let missing = Entry {
        path: "/me/plan".to_string(),
        name: "plan".to_string(),
        parent: "/me".to_string(),
        parent_name: "me".to_string(),
        kind: EntryKind::Missing,
    };
    assert_eq!(topic.store(&missing), expected);
}

#[test]
fn store_of_a_single_file_topic_writes_that_file() {
    let manager = Manager::new("/me/plan".to_string());
    let entry = file("/me/plan", "work.md", Some("- [ ] a (10/01/22) @ t"));
    let topic = Topic::load(&manager, &entry).unwrap();
    let around = folder("/me", "plan", vec![file("/me/plan", "work.md", Some(""))]);
    assert_eq!(topic.store(&around), vec![write("/me/plan/work.md", "- [ ] a (Mon 10/01/22) @ t\n")]);
}

#[test]
fn target_path_is_the_file_or_about() {
    let manager = Manager::new("/me/plan".to_string());
    let topic = manager.load(&disk()).unwrap();
    assert_eq!(topic.target_path(), "/me/plan/about.md");
    assert_eq!(topic.subtopics()[1].target_path(), "/me/plan/home/about.md");
    assert_eq!(topic.subtopics()[1].subtopics()[0].target_path(), "/me/plan/home/garden.md");
}

#[test]
fn listing_line_shows_the_due_unless_never() {
    let at = Moment::new(Civil { year: 2022, month: 1, day: 10, hour: 9, minute: 5 }).unwrap();
    let dated = Task::new(false, "email".to_string(), Due::Day(at), None);
    let open = Task::new(false, "email".to_string(), Due::Never, Some("tag".to_string()));
    assert_eq!(listing_line("work/email", &dated), "work/email (Mon 10/01/22 09:05)");
    assert_eq!(listing_line("work/email", &open), "work/email");
}
