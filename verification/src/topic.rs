//! Topics: named groups of tasks that mirror folders and files. A topic is
//! loaded from a picture of what lies at a path, lists its tasks with their
//! paths, and says what its file is to hold.
use crate::reader::{parse_tasks, read_all, Diagnostic};
use crate::task::{
    arranged_all, below, models, rows_model, rows_under, sort_tasks, under, Row, Task, TaskModel,
};
use crate::text::{blanks, chars_of, join_path, joined, string_of, text_model};
use crate::writer::{render_tasks, written_all};
use vstd::prelude::*;
use vstd::slice::slice_subrange;

verus! {

/// The number of blanks that make one level of indentation.
pub const TAB_SIZE: usize = 2;

/// The settings of one run: the folder that holds the topics, and the
/// width of one level of indentation.
#[derive(Debug)]
pub struct Manager {
    root_dir: String,
    tab_size: usize,
}

/// Why the root topic could not be loaded.
#[derive(Clone, Copy, Debug, PartialEq, Eq, Structural)]
pub enum LoadError {
    /// What lies at the root is no folder and no file of tasks that can be read.
    NoRoot,
}

/// What lies at a path, as far as loading needs it.
pub enum EntryKind {
    /// Nothing.
    Missing,
    /// A file, with its text where that could be read.
    File { content: Option<String> },
    /// A folder, with what lies in it.
    Folder { entries: Vec<Entry> },
}

/// A path with what lies there: the path itself, its last part, the folder
/// that holds it and the last part of that folder's path.
pub struct Entry {
    pub path: String,
    pub name: String,
    pub parent: String,
    pub parent_name: String,
    pub kind: EntryKind,
}

/// A named group of tasks with its subtopics.
#[derive(Debug)]
pub struct Topic<'a> {
    manager: &'a Manager,
    folder_path: String,
    file_path: Option<String>,
    name: String,
    tasks: Vec<Task>,
    notes: Vec<Diagnostic>,
    subtopics: Vec<Topic<'a>>,
}

/// What a topic holds.
pub struct TopicModel {
    pub name: Seq<char>,
    pub folder_path: Seq<char>,
    pub file_path: Option<Seq<char>>,
    pub tasks: Seq<TaskModel>,
    pub notes: Seq<Diagnostic>,
    pub subtopics: Seq<TopicModel>,
}

impl<'a> View for Topic<'a> {
    type V = TopicModel;

    closed spec fn view(&self) -> TopicModel
        decreases self,
    {
        TopicModel {
            name: self.name@,
            folder_path: self.folder_path@,
            file_path: text_model(self.file_path),
            tasks: models(self.tasks@),
            notes: self.notes@,
            subtopics: first_topics(self.subtopics@, self.subtopics@.len()),
        }
    }
}

/// What the first `n` of `topics` hold.
spec fn first_topics<'a>(topics: Seq<Topic<'a>>, n: nat) -> Seq<TopicModel>
    decreases topics, n,
{
    if n == 0 || n > topics.len() {
        Seq::empty()
    } else {
        first_topics(topics, (n - 1) as nat).push(topics[n - 1]@)
    }
}

/// What a list of topics holds.
pub open spec fn topic_models<'a>(topics: Seq<Topic<'a>>) -> Seq<TopicModel> {
    topics.map_values(|t: Topic<'a>| t@)
}

/// What an optional topic holds.
pub open spec fn topic_model<'a>(topic: Option<Topic<'a>>) -> Option<TopicModel> {
    match topic {
        Some(t) => Some(t@),
        None => None,
    }
}

proof fn lemma_first_topics<'a>(topics: Seq<Topic<'a>>, n: nat)
    requires
        n <= topics.len(),
    ensures
        first_topics(topics, n) =~= topic_models(topics.take(n as int)),
    decreases n,
{
    if n > 0 {
        lemma_first_topics(topics, (n - 1) as nat);
        assert(first_topics(topics, n) == first_topics(topics, (n - 1) as nat).push(
            topics[n - 1]@,
        ));
        assert(topic_models(topics.take(n as int)) =~= topic_models(topics.take(n - 1)).push(
            topics[n - 1]@,
        ));
    } else {
        assert(first_topics(topics, n) == Seq::<TopicModel>::empty());
    }
}

proof fn lemma_unfold<'a>(t: Topic<'a>)
    ensures
        t@ == (TopicModel {
            name: t.name@,
            folder_path: t.folder_path@,
            file_path: text_model(t.file_path),
            tasks: models(t.tasks@),
            notes: t.notes@,
            subtopics: topic_models(t.subtopics@),
        }),
{
    lemma_first_topics(t.subtopics@, t.subtopics@.len());
    assert(t.subtopics@.take(t.subtopics@.len() as int) =~= t.subtopics@);
}

/// The index of the last dot in `name`, or -1 where it has none.
pub open spec fn last_dot(name: Seq<char>) -> int
    decreases name.len(),
{
    if name.len() == 0 {
        -1
    } else if name.last() == '.' {
        name.len() - 1
    } else {
        last_dot(name.drop_last())
    }
}

/// The name of a file without its extension: what stands before the last
/// dot, and all of it where it has no dot but at its start.
pub open spec fn stem_of(name: Seq<char>) -> Seq<char> {
    if last_dot(name) > 0 {
        name.take(last_dot(name))
    } else {
        name
    }
}

/// Whether `name` is the name of a file of tasks: its extension, which is
/// what stands behind its last dot, is `md`, and something stands before
/// that dot.
pub open spec fn is_markdown(name: Seq<char>) -> bool {
    last_dot(name) > 0 && name.skip(last_dot(name) + 1) == "md"@
}

/// The topic that the file at `e` gives, where `content` is its text. The
/// topic is named after the file, and after the folder that holds it where
/// the file is named `about`.
pub open spec fn file_topic(e: Entry, content: Seq<char>) -> TopicModel {
    let read = read_all(content, TAB_SIZE as nat);
    TopicModel {
        name: if stem_of(e.name@) == "about"@ {
            e.parent_name@
        } else {
            stem_of(e.name@)
        },
        folder_path: e.parent@,
        file_path: Some(e.path@),
        tasks: read.tasks,
        notes: read.notes,
        subtopics: Seq::empty(),
    }
}

/// The topic that `e` gives if it is a file whose text could be read.
pub open spec fn own_file(e: Entry) -> Option<TopicModel> {
    match e.kind {
        EntryKind::File { content } => match content {
            Some(text) => Some(file_topic(e, text@)),
            None => None,
        },
        _ => None,
    }
}

/// The index of the first of `entries` that is named `name`, or their
/// number where none is.
pub open spec fn first_named(entries: Seq<Entry>, name: Seq<char>) -> nat
    decreases entries.len(),
{
    if entries.len() == 0 || entries[0].name@ == name {
        0
    } else {
        1 + first_named(entries.skip(1), name)
    }
}

/// The topic that a folder has of its own: what its `about.md` gives.
pub open spec fn about_of(entries: Seq<Entry>) -> Option<TopicModel> {
    let i = first_named(entries, "about.md"@) as int;
    if i < entries.len() {
        own_file(entries[i])
    } else {
        None
    }
}

/// The topic that `e` gives. Nothing gives none. A file gives one if it is
/// a file of tasks whose text could be read. A folder gives the topic of its
/// `about.md`, or one named after the folder with no file and no tasks; its
/// subtopics are what its other entries give.
pub open spec fn loaded(e: Entry) -> Option<TopicModel>
    decreases e, 0int,
{
    match e.kind {
        EntryKind::Missing => None,
        EntryKind::File { content } => if is_markdown(e.name@) {
            own_file(e)
        } else {
            None
        },
        EntryKind::Folder { entries } => {
            let subtopics = loaded_from(entries@, entries@.len());
            match about_of(entries@) {
                Some(own) => Some(TopicModel { subtopics, ..own }),
                None => Some(
                    TopicModel {
                        name: e.name@,
                        folder_path: e.path@,
                        file_path: None,
                        tasks: Seq::empty(),
                        notes: Seq::empty(),
                        subtopics,
                    },
                ),
            }
        },
    }
}

/// The topics that the first `n` of `entries` give, in their order. An
/// `about.md` gives none here, nor does an entry that gives no topic.
pub open spec fn loaded_from(entries: Seq<Entry>, n: nat) -> Seq<TopicModel>
    decreases entries, n,
{
    if n == 0 || n > entries.len() {
        Seq::empty()
    } else {
        let before = loaded_from(entries, (n - 1) as nat);
        let e = entries[n - 1];
        if e.name@ == "about.md"@ {
            before
        } else {
            match loaded(e) {
                Some(t) => before.push(t),
                None => before,
            }
        }
    }
}

/// Every task of `tasks` under its own name.
pub open spec fn named(tasks: Seq<TaskModel>) -> Seq<Row> {
    tasks.map_values(|t: TaskModel| (t.name, t))
}

/// What is below each of `tasks`, one after the other.
pub open spec fn below_all(tasks: Seq<TaskModel>) -> Seq<Row>
    decreases tasks.len(),
{
    if tasks.len() == 0 {
        Seq::empty()
    } else {
        below_all(tasks.drop_last()) + below(tasks.last())
    }
}

/// Every task in `topic` and below it, with its path from `topic` on: the
/// topic's own tasks, then what each subtopic lists, under that subtopic's
/// name, then what is below the topic's own tasks.
pub open spec fn listed(topic: TopicModel) -> Seq<Row>
    decreases topic, 1int,
{
    named(topic.tasks) + listed_under(topic.subtopics) + below_all(topic.tasks)
}

/// What each of `topics` lists, under that topic's name.
pub open spec fn listed_under(topics: Seq<TopicModel>) -> Seq<Row>
    decreases topics, 0int,
{
    if topics.len() == 0 {
        Seq::empty()
    } else {
        listed_under(topics.drop_last()) + under(topics.last().name, listed(topics.last()))
    }
}

/// The file that holds the tasks of `topic`: its own file, or the
/// `about.md` of its folder where it has none.
pub open spec fn target(topic: TopicModel) -> Seq<char> {
    match topic.file_path {
        Some(path) => path,
        None => joined(topic.folder_path, "about.md"@),
    }
}

/// `topic` with its tasks arranged by their due values, at every depth,
/// and its subtopics sorted in the same way.
pub open spec fn sorted(topic: TopicModel) -> TopicModel
    decreases topic, 1int,
{
    TopicModel {
        tasks: arranged_all(topic.tasks),
        subtopics: sorted_first(topic.subtopics, topic.subtopics.len()),
        ..topic
    }
}

/// The first `n` of `topics`, each sorted.
pub open spec fn sorted_first(topics: Seq<TopicModel>, n: nat) -> Seq<TopicModel>
    decreases topics, n,
{
    if n == 0 || n > topics.len() {
        Seq::empty()
    } else {
        sorted_first(topics, (n - 1) as nat).push(sorted(topics[n - 1]))
    }
}

/// The tasks of `topic` itself as text.
pub open spec fn text_of(topic: TopicModel) -> Seq<char> {
    written_all(topic.tasks, Seq::empty(), blanks(TAB_SIZE as nat))
}

impl Manager {
    #[verifier::type_invariant]
    spec fn fixed(self) -> bool {
        self.tab_size == TAB_SIZE
    }

    /// The folder that holds the topics.
    pub closed spec fn root(self) -> Seq<char> {
        self.root_dir@
    }

    /// The settings for the topics in `root_dir`.
    pub fn new(root_dir: String) -> (m: Manager)
        ensures
            m.root() == root_dir@,
    {
        Manager { root_dir, tab_size: TAB_SIZE }
    }

    /// The folder that holds the topics.
    pub fn root_dir(&self) -> (r: &str)
        ensures
            r@ == self.root(),
    {
        self.root_dir.as_str()
    }

    /// The number of blanks that make one level of indentation.
    pub fn tab_size(&self) -> (n: usize)
        ensures
            n == TAB_SIZE,
    {
        proof {
            use_type_invariant(self);
        }
        self.tab_size
    }

    /// Loads the root topic from what lies at the root folder. Whatever
    /// the folder is called, the topic is named `root`.
    pub fn load<'a>(&'a self, root: &Entry) -> (r: Result<Topic<'a>, LoadError>)
        ensures
            match r {
                Ok(topic) => loaded(*root) is Some && topic@ == (TopicModel {
                    name: "root"@,
                    ..loaded(*root)->0
                }),
                Err(e) => loaded(*root) is None,
            },
    {
        match Topic::load(self, root) {
            Some(topic) => {
                let mut topic = topic;
                proof {
                    lemma_unfold(topic);
                }
                topic.name = "root".to_owned();
                proof {
                    lemma_unfold(topic);
                }
                Ok(topic)
            },
            None => Err(LoadError::NoRoot),
        }
    }
}

/// The index of the last dot in `chars`, if it has one.
fn find_last_dot(chars: &[char]) -> (r: Option<usize>)
    ensures
        match r {
            Some(i) => last_dot(chars@) == i && i < chars.len(),
            None => last_dot(chars@) == -1,
        },
{
    let mut end: usize = chars.len();
    assert(chars@.take(end as int) == chars@);
    while end > 0 && chars[end - 1] != '.'
        invariant
            end <= chars.len(),
            last_dot(chars@) == last_dot(chars@.take(end as int)),
        decreases end,
    {
        assert(chars@.take(end as int).drop_last() == chars@.take(end - 1));
        end -= 1;
    }
    if end > 0 {
        Some(end - 1)
    } else {
        None
    }
}

/// Whether `name` is the name of a file of tasks.
fn has_markdown_name(name: &str) -> (r: bool)
    ensures
        r == is_markdown(name@),
{
    let chars = chars_of(name);
    match find_last_dot(chars.as_slice()) {
        Some(i) => if i > 0 {
            let extension = string_of(slice_subrange(chars.as_slice(), i + 1, chars.len()));
            extension.as_str().eq("md")
        } else {
            false
        },
        None => false,
    }
}

/// The name of a file without its extension.
fn stem(name: &str) -> (r: String)
    ensures
        r@ == stem_of(name@),
{
    let chars = chars_of(name);
    match find_last_dot(chars.as_slice()) {
        Some(i) => if i > 0 {
            string_of(slice_subrange(chars.as_slice(), 0, i))
        } else {
            name.to_owned()
        },
        None => name.to_owned(),
    }
}

impl<'a> Topic<'a> {
    /// The topic that the file of tasks at `entry` gives, where `content`
    /// is its text.
    pub fn parse(manager: &'a Manager, entry: &Entry, content: &str) -> (t: Topic<'a>)
        ensures
            t@ == file_topic(*entry, content@),
    {
        let own = stem(entry.name.as_str());
        let name = if own.as_str().eq("about") {
            entry.parent_name.clone()
        } else {
            own
        };
        let (tasks, notes) = parse_tasks(content, manager.tab_size());
        let t = Topic {
            manager,
            folder_path: entry.parent.clone(),
            file_path: Some(entry.path.clone()),
            name,
            tasks,
            notes,
            subtopics: Vec::new(),
        };
        proof {
            lemma_unfold(t);
            assert(topic_models(t.subtopics@) =~= Seq::empty());
        }
        t
    }

    /// The topic that `entry` gives, if it gives one.
    pub fn load(manager: &'a Manager, entry: &Entry) -> (r: Option<Topic<'a>>)
        ensures
            topic_model(r) == loaded(*entry),
        decreases entry,
    {
        match &entry.kind {
            EntryKind::Missing => None,
            EntryKind::File { content } => match content {
                Some(text) => if has_markdown_name(entry.name.as_str()) {
                    Some(Topic::parse(manager, entry, text.as_str()))
                } else {
                    None
                },
                None => None,
            },
            EntryKind::Folder { entries } => {
                let about = "about.md".to_owned();
                let mut subtopics: Vec<Topic<'a>> = Vec::new();
                let mut i: usize = 0;
                assert(topic_models(subtopics@) =~= loaded_from(entries@, 0));
                while i < entries.len()
                    invariant
                        i <= entries.len(),
                        about@ == "about.md"@,
                        entry.kind == (EntryKind::Folder { entries: *entries }),
                        topic_models(subtopics@) == loaded_from(entries@, i as nat),
                    decreases entries.len() - i,
                {
                    let e = &entries[i];
                    let ghost before = subtopics@;
                    assert(decreases_to!(entry.kind => entry.kind->entries));
                    if e.name != about {
                        match Topic::load(manager, e) {
                            Some(t) => {
                                subtopics.push(t);
                                assert(topic_models(subtopics@) =~= topic_models(before).push(t@));
                            },
                            None => {},
                        }
                    }
                    i += 1;
                }
                let mut k: usize = 0;
                assert(entries@.skip(0) == entries@);
                while k < entries.len() && entries[k].name != about
                    invariant
                        k <= entries.len(),
                        about@ == "about.md"@,
                        first_named(entries@, "about.md"@) == k + first_named(
                            entries@.skip(k as int),
                            "about.md"@,
                        ),
                    decreases entries.len() - k,
                {
                    assert(entries@.skip(k as int).skip(1) == entries@.skip(k + 1));
                    k += 1;
                }
                let own = if k < entries.len() {
                    let e = &entries[k];
                    match &e.kind {
                        EntryKind::File { content } => match content {
                            Some(text) => Some((e, text)),
                            None => None,
                        },
                        _ => None,
                    }
                } else {
                    None
                };
                let t = match own {
                    Some((e, text)) => Topic::about(manager, e, text.as_str(), subtopics),
                    None => Topic {
                        manager,
                        folder_path: entry.path.clone(),
                        file_path: None,
                        name: entry.name.clone(),
                        tasks: Vec::new(),
                        notes: Vec::new(),
                        subtopics,
                    },
                };
                proof {
                    lemma_unfold(t);
                    assert(models(Seq::<Task>::empty()) =~= Seq::empty());
                }
                Some(t)
            },
        }
    }

    /// The topic that a folder has from its `about.md` at `entry`, whose
    /// text is `content`, with the subtopics that the folder's other entries
    /// gave.
    fn about(manager: &'a Manager, entry: &Entry, content: &str, subtopics: Vec<Topic<'a>>) -> (t:
        Topic<'a>)
        ensures
            t@ == (TopicModel {
                subtopics: topic_models(subtopics@),
                ..file_topic(*entry, content@)
            }),
    {
        let mut t = Topic::parse(manager, entry, content);
        proof {
            lemma_unfold(t);
        }
        t.subtopics = subtopics;
        proof {
            lemma_unfold(t);
        }
        t
    }

    /// The topic's name.
    pub fn name(&self) -> (r: &str)
        ensures
            r@ == self@.name,
    {
        proof {
            lemma_unfold(*self);
        }
        self.name.as_str()
    }

    /// The folder that the topic lies in.
    pub fn folder_path(&self) -> (r: &str)
        ensures
            r@ == self@.folder_path,
    {
        proof {
            lemma_unfold(*self);
        }
        self.folder_path.as_str()
    }

    /// The file that holds the topic's tasks, if it has one.
    pub fn file_path(&self) -> (r: Option<&str>)
        ensures
            match r {
                Some(p) => self@.file_path == Some(p@),
                None => self@.file_path is None,
            },
    {
        proof {
            lemma_unfold(*self);
        }
        match &self.file_path {
            Some(p) => Some(p.as_str()),
            None => None,
        }
    }

    /// The tasks of the topic itself, in their order.
    pub fn tasks(&self) -> (r: &Vec<Task>)
        ensures
            models(r@) == self@.tasks,
    {
        proof {
            lemma_unfold(*self);
        }
        &self.tasks
    }

    /// The topic's subtopics, in their order.
    pub fn subtopics(&self) -> (r: &Vec<Topic<'a>>)
        ensures
            topic_models(r@) == self@.subtopics,
    {
        proof {
            lemma_unfold(*self);
        }
        &self.subtopics
    }

    /// What the reader passed over in the topic's file.
    pub fn notes(&self) -> (r: &Vec<Diagnostic>)
        ensures
            r@ == self@.notes,
    {
        proof {
            lemma_unfold(*self);
        }
        &self.notes
    }

    /// Every task in this topic and below it, with its path: the topic's
    /// own tasks, then the tasks of each subtopic under that subtopic's
    /// name, then the subtasks of the topic's own tasks.
    pub fn tasks_rec(&self) -> (rows: Vec<(String, &Task)>)
        ensures
            rows_model(rows@) == listed(self@),
        decreases self,
    {
        proof {
            lemma_unfold(*self);
        }
        let mut rows: Vec<(String, &Task)> = Vec::new();
        let mut i: usize = 0;
        assert(rows_model(rows@) =~= named(self@.tasks.take(0)));
        while i < self.tasks.len()
            invariant
                i <= self.tasks.len(),
                self@.tasks == models(self.tasks@),
                rows_model(rows@) == named(self@.tasks.take(i as int)),
            decreases self.tasks.len() - i,
        {
            let task = &self.tasks[i];
            let ghost listed_rows = rows@;
            rows.push((task.name().to_owned(), task));
            assert(rows_model(rows@) =~= rows_model(listed_rows).push((task@.name, task@)));
            assert(named(self@.tasks.take(i + 1)) =~= named(self@.tasks.take(i as int)).push(
                (task@.name, task@),
            ));
            i += 1;
        }
        assert(self@.tasks.take(i as int) =~= self@.tasks);
        let mut k: usize = 0;
        assert(self@.subtopics.take(0) =~= Seq::empty());
        assert(rows_model(rows@) =~= named(self@.tasks) + listed_under(self@.subtopics.take(0)));
        while k < self.subtopics.len()
            invariant
                k <= self.subtopics.len(),
                self@.subtopics == topic_models(self.subtopics@),
                rows_model(rows@) == named(self@.tasks) + listed_under(
                    self@.subtopics.take(k as int),
                ),
            decreases self.subtopics.len() - k,
        {
            let sub = &self.subtopics[k];
            let ghost upto = self@.subtopics.take(k + 1);
            let ghost listed_rows = rows@;
            assert(upto.drop_last() =~= self@.subtopics.take(k as int));
            assert(upto.last() == sub@);
            let inner = sub.tasks_rec();
            let mut moved = rows_under(sub.name(), &inner);
            let ghost added = moved@;
            rows.append(&mut moved);
            assert(rows_model(rows@) =~= rows_model(listed_rows) + rows_model(added));
            assert(rows_model(rows@) =~= named(self@.tasks) + listed_under(upto));
            k += 1;
        }
        assert(self@.subtopics.take(k as int) =~= self@.subtopics);
        let ghost flat = named(self@.tasks) + listed_under(self@.subtopics);
        let mut j: usize = 0;
        assert(self@.tasks.take(0) =~= Seq::empty());
        assert(rows_model(rows@) =~= flat + below_all(self@.tasks.take(0)));
        while j < self.tasks.len()
            invariant
                j <= self.tasks.len(),
                self@.tasks == models(self.tasks@),
                flat == named(self@.tasks) + listed_under(self@.subtopics),
                rows_model(rows@) == flat + below_all(self@.tasks.take(j as int)),
            decreases self.tasks.len() - j,
        {
            let task = &self.tasks[j];
            let ghost upto = self@.tasks.take(j + 1);
            let ghost listed_rows = rows@;
            assert(upto.drop_last() =~= self@.tasks.take(j as int));
            assert(upto.last() == task@);
            let mut inner = task.subtasks_rec();
            let ghost added = inner@;
            rows.append(&mut inner);
            assert(rows_model(rows@) =~= rows_model(listed_rows) + rows_model(added));
            assert(rows_model(rows@) =~= flat + below_all(upto));
            j += 1;
        }
        assert(self@.tasks.take(j as int) =~= self@.tasks);
        rows
    }

    /// Arranges the tasks of this topic and of every topic below it by
    /// their due values, and the subtasks of each task in the same way.
    /// Tasks that compare as equal stay in their order.
    pub fn sort(&mut self)
        ensures
            final(self)@ == sorted(old(self)@),
        decreases old(self)@,
    {
        proof {
            lemma_unfold(*self);
        }
        sort_tasks(&mut self.tasks);
        let mut rest: Vec<Topic<'a>> = Vec::new();
        std::mem::swap(&mut self.subtopics, &mut rest);
        let ghost all = rest@;
        let total = rest.len();
        let mut done: usize = 0;
        assert(topic_models(self.subtopics@) =~= sorted_first(topic_models(all), 0));
        while rest.len() > 0
            invariant
                done + rest.len() == all.len(),
                all.len() == total,
                rest@ == all.skip(done as int),
                topic_models(all) == old(self)@.subtopics,
                self.name == old(self).name,
                self.folder_path == old(self).folder_path,
                self.file_path == old(self).file_path,
                self.notes == old(self).notes,
                models(self.tasks@) == arranged_all(old(self)@.tasks),
                topic_models(self.subtopics@) == sorted_first(topic_models(all), done as nat),
            decreases rest.len(),
        {
            let mut sub = rest.remove(0);
            assert(sub == all[done as int]);
            assert(rest@ =~= all.skip(done + 1));
            assert(topic_models(all)[done as int] == sub@);
            sub.sort();
            let ghost before = self.subtopics@;
            self.subtopics.push(sub);
            assert(topic_models(self.subtopics@) =~= topic_models(before).push(sub@));
            done += 1;
        }
        proof {
            lemma_unfold(*self);
        }
    }

    /// The path of the file that holds the topic's tasks.
    pub fn target_path(&self) -> (r: String)
        ensures
            r@ == target(self@),
    {
        proof {
            lemma_unfold(*self);
        }
        match &self.file_path {
            Some(path) => path.clone(),
            None => join_path(self.folder_path.as_str(), "about.md"),
        }
    }

    /// What the topic's file is to hold: the path of the file, and the
    /// topic's own tasks as text.
    pub fn write(&self) -> (r: (String, String))
        ensures
            r.0@ == target(self@),
            r.1@ == text_of(self@),
    {
        proof {
            lemma_unfold(*self);
        }
        (self.target_path(), render_tasks(&self.tasks, self.manager.tab_size()))
    }
}

} // verus!
