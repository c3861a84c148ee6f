//! Bringing folders and files in line with a topic. The library reads a
//! picture of what lies in the topic's folder and says what is to change;
//! carrying the changes out is the caller's part.
use crate::topic::{target, text_of, topic_models, Entry, EntryKind, Topic, TopicModel};
use vstd::prelude::*;

verus! {

/// One change to what lies on disk.
#[derive(Debug, PartialEq, Eq)]
pub enum Change {
    /// The file at `path` is to hold `text`; it is made, with the folders
    /// above it, where it is missing.
    Write { path: String, text: String },
    /// A folder is to be made at `path`.
    Create { path: String },
    /// What lies at `path` is to be deleted, with all that it holds.
    Remove { path: String },
}

/// What a change holds.
pub enum ChangeModel {
    Write { path: Seq<char>, text: Seq<char> },
    Create { path: Seq<char> },
    Remove { path: Seq<char> },
}

impl View for Change {
    type V = ChangeModel;

    open spec fn view(&self) -> ChangeModel {
        match *self {
            Change::Write { path, text } => ChangeModel::Write { path: path@, text: text@ },
            Change::Create { path } => ChangeModel::Create { path: path@ },
            Change::Remove { path } => ChangeModel::Remove { path: path@ },
        }
    }
}

/// What a list of changes holds.
pub open spec fn changes_model(changes: Seq<Change>) -> Seq<ChangeModel> {
    changes.map_values(|c: Change| c@)
}

/// What lies in `disk`, where it is a folder.
pub open spec fn entries_of(disk: Entry) -> Seq<Entry> {
    match disk.kind {
        EntryKind::Folder { entries } => entries@,
        _ => Seq::empty(),
    }
}

/// Whether `path` is the folder or the file of `topic`.
pub open spec fn lies_at(topic: TopicModel, path: Seq<char>) -> bool {
    topic.folder_path == path || topic.file_path == Some(path)
}

/// Whether `topic` has a use for what lies at `path`: it is the file of the
/// topic's own tasks, or the folder or file of one of its subtopics.
pub open spec fn claimed(topic: TopicModel, path: Seq<char>) -> bool {
    target(topic) == path || exists|i: int|
        0 <= i < topic.subtopics.len() && lies_at(#[trigger] topic.subtopics[i], path)
}

/// The index of the first of `entries` that lies at `path`, or their number
/// where none does.
pub open spec fn first_at(entries: Seq<Entry>, path: Seq<char>) -> nat
    decreases entries.len(),
{
    if entries.len() == 0 || entries[0].path@ == path {
        0
    } else {
        1 + first_at(entries.skip(1), path)
    }
}

/// Whether `sub`, a subtopic of `topic`, has a folder of its own.
pub open spec fn apart(topic: TopicModel, sub: TopicModel) -> bool {
    sub.folder_path != topic.folder_path
}

/// What lies in the folder of `sub`, a subtopic of `topic` whose folder
/// holds `entries`. A subtopic that shares the folder of `topic` has nothing
/// of its own there.
pub open spec fn inside(topic: TopicModel, entries: Seq<Entry>, sub: TopicModel) -> Seq<Entry> {
    let k = first_at(entries, sub.folder_path) as int;
    if apart(topic, sub) && k < entries.len() {
        entries_of(entries[k])
    } else {
        Seq::empty()
    }
}

/// The folder that is to be made for `sub`: its own, where it has one that
/// is not among `entries`.
pub open spec fn made(topic: TopicModel, entries: Seq<Entry>, sub: TopicModel) -> Seq<
    ChangeModel,
> {
    if apart(topic, sub) && first_at(entries, sub.folder_path) >= entries.len() {
        seq![ChangeModel::Create { path: sub.folder_path }]
    } else {
        Seq::empty()
    }
}

/// What is to be deleted among the first `n` of `entries`: every entry that
/// `topic` has no use for.
pub open spec fn removals(topic: TopicModel, entries: Seq<Entry>, n: nat) -> Seq<ChangeModel>
    decreases n,
{
    if n == 0 || n > entries.len() {
        Seq::empty()
    } else {
        let before = removals(topic, entries, (n - 1) as nat);
        if claimed(topic, entries[n - 1].path@) {
            before
        } else {
            before.push(ChangeModel::Remove { path: entries[n - 1].path@ })
        }
    }
}

/// What is to change so that the folder of `topic`, which holds `entries`,
/// is in line with `topic`. First the topic's own tasks are written. Then
/// each subtopic in turn gets its folder, where that is missing, and is
/// brought in line in the same way. Last, every entry that the topic has no
/// use for is deleted.
pub open spec fn plan(topic: TopicModel, entries: Seq<Entry>) -> Seq<ChangeModel>
    decreases topic, 1int, 0int,
{
    seq![ChangeModel::Write { path: target(topic), text: text_of(topic) }] + plans(
        topic,
        entries,
        topic.subtopics.len(),
    ) + removals(topic, entries, entries.len())
}

/// What is to change for the first `n` subtopics of `topic`.
pub open spec fn plans(topic: TopicModel, entries: Seq<Entry>, n: nat) -> Seq<ChangeModel>
    decreases topic, 0int, n,
{
    if n == 0 || n > topic.subtopics.len() {
        Seq::empty()
    } else {
        let sub = topic.subtopics[n - 1];
        plans(topic, entries, (n - 1) as nat) + made(topic, entries, sub) + plan(
            sub,
            inside(topic, entries, sub),
        )
    }
}

/// The index of the first of `entries` that lies at `path`.
fn find_entry(entries: &Vec<Entry>, path: &str) -> (k: usize)
    ensures
        k == first_at(entries@, path@),
        k <= entries.len(),
{
    let mut k: usize = 0;
    assert(entries@.skip(0) == entries@);
    while k < entries.len() && !entries[k].path.as_str().eq(path)
        invariant
            k <= entries.len(),
            first_at(entries@, path@) == k + first_at(entries@.skip(k as int), path@),
        decreases entries.len() - k,
    {
        assert(entries@.skip(k as int).skip(1) == entries@.skip(k + 1));
        k += 1;
    }
    k
}

impl<'a> Topic<'a> {
    /// Whether the topic has a use for what lies at `path`.
    fn claims(&self, path: &str) -> (r: bool)
        ensures
            r == claimed(self@, path@),
    {
        if self.target_path().as_str().eq(path) {
            return true;
        }
        let subtopics = self.subtopics();
        let mut i: usize = 0;
        while i < subtopics.len()
            invariant
                i <= subtopics.len(),
                topic_models(subtopics@) == self@.subtopics,
                forall|j: int| 0 <= j < i ==> !lies_at(#[trigger] self@.subtopics[j], path@),
            decreases subtopics.len() - i,
        {
            let sub = &subtopics[i];
            assert(self@.subtopics[i as int] == sub@);
            let here = sub.folder_path().eq(path) || match sub.file_path() {
                Some(file) => file.eq(path),
                None => false,
            };
            if here {
                return true;
            }
            i += 1;
        }
        false
    }

    /// What is to change so that the topic's folder, which holds
    /// `entries`, is in line with the topic.
    fn store_in(&self, entries: &Vec<Entry>) -> (r: Vec<Change>)
        ensures
            changes_model(r@) == plan(self@, entries@),
        decreases self@,
    {
        let (path, text) = self.write();
        let mut changes: Vec<Change> = Vec::new();
        changes.push(Change::Write { path, text });
        let ghost first = seq![ChangeModel::Write { path: target(self@), text: text_of(self@) }];
        assert(changes_model(changes@) =~= first + plans(self@, entries@, 0));
        let nothing: Vec<Entry> = Vec::new();
        let subtopics = self.subtopics();
        let mut i: usize = 0;
        while i < subtopics.len()
            invariant
                i <= subtopics.len(),
                nothing@.len() == 0,
                topic_models(subtopics@) == self@.subtopics,
                first == seq![ChangeModel::Write { path: target(self@), text: text_of(self@) }],
                changes_model(changes@) == first + plans(self@, entries@, i as nat),
            decreases subtopics.len() - i,
        {
            let sub = &subtopics[i];
            assert(self@.subtopics[i as int] == sub@);
            let ghost before = changes@;
            let split = !sub.folder_path().eq(self.folder_path());
            let k = find_entry(entries, sub.folder_path());
            if split && k >= entries.len() {
                changes.push(Change::Create { path: sub.folder_path().to_owned() });
            }
            assert(changes_model(changes@) =~= changes_model(before) + made(
                self@,
                entries@,
                sub@,
            ));
            let ghost created = changes@;
            let within = if split && k < entries.len() {
                match &entries[k].kind {
                    EntryKind::Folder { entries: inner } => inner,
                    _ => &nothing,
                }
            } else {
                &nothing
            };
            assert(within@ =~= inside(self@, entries@, sub@));
            let mut deeper = sub.store_in(within);
            let ghost added = deeper@;
            changes.append(&mut deeper);
            assert(changes_model(changes@) =~= changes_model(created) + changes_model(added));
            assert(changes_model(changes@) =~= first + plans(self@, entries@, (i + 1) as nat));
            i += 1;
        }
        let ghost kept = first + plans(self@, entries@, self@.subtopics.len());
        let mut n: usize = 0;
        assert(changes_model(changes@) =~= kept + removals(self@, entries@, 0));
        while n < entries.len()
            invariant
                n <= entries.len(),
                changes_model(changes@) == kept + removals(self@, entries@, n as nat),
            decreases entries.len() - n,
        {
            let ghost before = changes@;
            let path = &entries[n].path;
            if !self.claims(path.as_str()) {
                changes.push(Change::Remove { path: path.clone() });
                assert(changes_model(changes@) =~= changes_model(before).push(
                    ChangeModel::Remove { path: path@ },
                ));
            }
            assert(changes_model(changes@) =~= kept + removals(self@, entries@, (n + 1) as nat));
            n += 1;
        }
        changes
    }

    /// What is to change on disk so that it is in line with this topic and
    /// all below it, where `disk` is what lies at the topic's folder now:
    /// the files to write, the folders to make and the entries to delete.
    pub fn store(&self, disk: &Entry) -> (r: Vec<Change>)
        ensures
            changes_model(r@) == plan(self@, entries_of(*disk)),
    {
        match &disk.kind {
            EntryKind::Folder { entries } => self.store_in(entries),
            _ => {
                let nothing: Vec<Entry> = Vec::new();
                assert(nothing@ =~= entries_of(*disk));
                self.store_in(&nothing)
            },
        }
    }
}

/// Whether every one of `changes` writes a file.
pub open spec fn only_writes(changes: Seq<ChangeModel>) -> bool {
    forall|k: int| 0 <= k < changes.len() ==> #[trigger] changes[k] is Write
}

/// Whether the folder of `topic`, which holds `entries`, is in line with
/// `topic` but for what the files hold: the topic has a use for every entry,
/// every subtopic with a folder of its own finds that folder, and what lies
/// there is in line with the subtopic in the same way.
pub open spec fn settled(topic: TopicModel, entries: Seq<Entry>) -> bool
    decreases topic, 1int, 0int,
{
    &&& forall|j: int| 0 <= j < entries.len() ==> claimed(topic, #[trigger] entries[j].path@)
    &&& settled_below(topic, entries, topic.subtopics.len())
}

/// Whether the first `n` subtopics of `topic` find their folders in line.
pub open spec fn settled_below(topic: TopicModel, entries: Seq<Entry>, n: nat) -> bool
    decreases topic, 0int, n,
{
    if n == 0 || n > topic.subtopics.len() {
        true
    } else {
        let sub = topic.subtopics[n - 1];
        &&& settled_below(topic, entries, (n - 1) as nat)
        &&& (apart(topic, sub) ==> first_at(entries, sub.folder_path) < entries.len())
        &&& settled(sub, inside(topic, entries, sub))
    }
}

/// Where the topic has a use for every entry, nothing is deleted.
proof fn lemma_nothing_removed(topic: TopicModel, entries: Seq<Entry>, n: nat)
    requires
        forall|j: int| 0 <= j < entries.len() ==> claimed(topic, #[trigger] entries[j].path@),
    ensures
        removals(topic, entries, n).len() == 0,
    decreases n,
{
    if n > 0 && n <= entries.len() {
        lemma_nothing_removed(topic, entries, (n - 1) as nat);
        assert(claimed(topic, entries[n - 1].path@));
    }
}

/// Storing a topic whose folder is in line with it but for what the files
/// hold only writes files: no folder is made and nothing is deleted.
pub proof fn lemma_settled_only_writes(topic: TopicModel, entries: Seq<Entry>)
    requires
        settled(topic, entries),
    ensures
        only_writes(plan(topic, entries)),
    decreases topic, 1int, 0int,
{
    lemma_settled_below(topic, entries, topic.subtopics.len());
    lemma_nothing_removed(topic, entries, entries.len());
}

/// The part of `lemma_settled_only_writes` for the first `n` subtopics.
proof fn lemma_settled_below(topic: TopicModel, entries: Seq<Entry>, n: nat)
    requires
        settled_below(topic, entries, n),
    ensures
        only_writes(plans(topic, entries, n)),
    decreases topic, 0int, n,
{
    if n > 0 && n <= topic.subtopics.len() {
        let sub = topic.subtopics[n - 1];
        lemma_settled_below(topic, entries, (n - 1) as nat);
        lemma_settled_only_writes(sub, inside(topic, entries, sub));
        assert(made(topic, entries, sub).len() == 0);
    }
}

} // verus!
