//! Tasks: checkbox items that may hold subtasks, and the two ways in which
//! the reader grows a list of them.
use crate::due::{due_later, due_order, due_text, lemma_later_one_way, Due, DueModel};
use crate::text::{join_path, joined, text_model};
use std::cmp::Ordering;
use vstd::prelude::*;
use vstd::string::StringExecFns;

verus! {

/// A checkbox item. Among the subtasks of one task no name occurs twice in
/// what the reader builds.
#[derive(Debug)]
pub struct Task {
    done: bool,
    name: String,
    due: Due,
    special: Option<String>,
    description: Option<String>,
    subtasks: Vec<Task>,
}

/// What a task holds.
pub struct TaskModel {
    pub done: bool,
    pub name: Seq<char>,
    pub due: DueModel,
    pub special: Option<Seq<char>>,
    pub description: Option<Seq<char>>,
    pub subtasks: Seq<TaskModel>,
}

/// A path and the task that it leads to.
pub type Row = (Seq<char>, TaskModel);

impl View for Task {
    type V = TaskModel;

    closed spec fn view(&self) -> TaskModel
        decreases self,
    {
        TaskModel {
            done: self.done,
            name: self.name@,
            due: self.due@,
            special: text_model(self.special),
            description: text_model(self.description),
            subtasks: first_models(self.subtasks@, self.subtasks@.len()),
        }
    }
}

/// What the first `n` of `tasks` hold.
spec fn first_models(tasks: Seq<Task>, n: nat) -> Seq<TaskModel>
    decreases tasks, n,
{
    if n == 0 || n > tasks.len() {
        Seq::empty()
    } else {
        first_models(tasks, (n - 1) as nat).push(tasks[n - 1]@)
    }
}

proof fn lemma_first_models(tasks: Seq<Task>, n: nat)
    requires
        n <= tasks.len(),
    ensures
        first_models(tasks, n) =~= models(tasks.take(n as int)),
    decreases n,
{
    if n > 0 {
        lemma_first_models(tasks, (n - 1) as nat);
        assert(first_models(tasks, n) == first_models(tasks, (n - 1) as nat).push(tasks[n - 1]@));
        assert(models(tasks.take(n as int)) =~= models(tasks.take(n - 1)).push(tasks[n - 1]@));
    } else {
        assert(first_models(tasks, n) == Seq::<TaskModel>::empty());
    }
}

/// What a list of tasks holds.
pub open spec fn models(tasks: Seq<Task>) -> Seq<TaskModel> {
    tasks.map_values(|t: Task| t@)
}

/// What a list of rows holds.
pub open spec fn rows_model(rows: Seq<(String, &Task)>) -> Seq<Row> {
    rows.map_values(|r: (String, &Task)| (r.0@, r.1@))
}

/// Whether one of `tasks` is named `name`.
pub open spec fn has_name(tasks: Seq<TaskModel>, name: Seq<char>) -> bool {
    exists|i: int| 0 <= i < tasks.len() && #[trigger] tasks[i].name == name
}

/// Whether a task named `name` that arrives at `depth` is taken in: the list
/// that it would join holds no task of that name. The list is found as
/// `inserted` finds it.
pub open spec fn accepts(tasks: Seq<TaskModel>, depth: nat, name: Seq<char>) -> bool
    decreases depth,
{
    if tasks.len() == 0 || depth == 0 {
        !has_name(tasks, name)
    } else {
        accepts(tasks.last().subtasks, (depth - 1) as nat, name)
    }
}

/// `tasks` after `task` arrived at `depth`. From `tasks` the way leads into
/// the subtasks of the last task, once for each unit of depth, and ends early
/// at an empty list. There `task` is added at the end, unless a task of that
/// name is there already: then nothing changes.
pub open spec fn inserted(tasks: Seq<TaskModel>, depth: nat, task: TaskModel) -> Seq<TaskModel>
    decreases depth,
{
    if tasks.len() == 0 || depth == 0 {
        if has_name(tasks, task.name) {
            tasks
        } else {
            tasks.push(task)
        }
    } else {
        let last = tasks.last();
        tasks.drop_last().push(
            TaskModel { subtasks: inserted(last.subtasks, (depth - 1) as nat, task), ..last },
        )
    }
}

/// A description with one more line.
pub open spec fn noted(description: Option<Seq<char>>, line: Seq<char>) -> Seq<char> {
    match description {
        Some(d) => d + seq!['\n'] + line,
        None => line,
    }
}

/// `tasks` after a line of description arrived at `depth`. At depth 0, or
/// with no task, nothing changes. Else the way starts at the last task and
/// leads to the last subtask, once for each unit of depth beyond the first,
/// and ends early at a task without subtasks. That task's description gets
/// the line.
pub open spec fn described(tasks: Seq<TaskModel>, depth: nat, line: Seq<char>) -> Seq<TaskModel>
    decreases depth,
{
    if depth == 0 || tasks.len() == 0 {
        tasks
    } else {
        let last = tasks.last();
        if last.subtasks.len() == 0 || depth == 1 {
            tasks.drop_last().push(
                TaskModel { description: Some(noted(last.description, line)), ..last },
            )
        } else {
            tasks.drop_last().push(
                TaskModel { subtasks: described(last.subtasks, (depth - 1) as nat, line), ..last },
            )
        }
    }
}

/// `rows` with `head` and a slash before every path.
pub open spec fn under(head: Seq<char>, rows: Seq<Row>) -> Seq<Row> {
    rows.map_values(|r: Row| (joined(head, r.0), r.1))
}

/// The tasks below `task`, each with its path from `task` on: every subtask
/// in turn, followed at once by what is below it.
pub open spec fn below(task: TaskModel) -> Seq<Row>
    decreases task, 1int,
{
    under(task.name, spread(task.subtasks))
}

/// Every task of `tasks` under its own name, followed at once by what is
/// below it.
pub open spec fn spread(tasks: Seq<TaskModel>) -> Seq<Row>
    decreases tasks, 0int,
{
    if tasks.len() == 0 {
        Seq::empty()
    } else {
        spread(tasks.drop_last()).push((tasks.last().name, tasks.last())) + below(tasks.last())
    }
}

proof fn lemma_unfold(t: Task)
    ensures
        t@ == (TaskModel {
            done: t.done,
            name: t.name@,
            due: t.due@,
            special: text_model(t.special),
            description: text_model(t.description),
            subtasks: models(t.subtasks@),
        }),
{
    lemma_first_models(t.subtasks@, t.subtasks@.len());
    assert(t.subtasks@.take(t.subtasks@.len() as int) =~= t.subtasks@);
}

/// Whether one of `tasks` is named `name`.
fn contains_name(tasks: &Vec<Task>, name: &String) -> (r: bool)
    ensures
        r == has_name(models(tasks@), name@),
{
    let mut i: usize = 0;
    while i < tasks.len()
        invariant
            i <= tasks.len(),
            forall|j: int| 0 <= j < i ==> (#[trigger] models(tasks@)[j]).name != name@,
        decreases tasks.len() - i,
    {
        proof {
            lemma_unfold(tasks@[i as int]);
        }
        if tasks[i].name == *name {
            assert(models(tasks@)[i as int].name == name@);
            return true;
        }
        i += 1;
    }
    false
}

impl Task {
    /// A task without description or subtasks.
    pub fn new(done: bool, name: String, due: Due, special: Option<String>) -> (t: Task)
        ensures
            t@ == (TaskModel {
                done,
                name: name@,
                due: due@,
                special: text_model(special),
                description: None,
                subtasks: Seq::empty(),
            }),
    {
        let t = Task { done, name, due, special, description: None, subtasks: Vec::new() };
        proof {
            lemma_unfold(t);
            assert(models(t.subtasks@) =~= Seq::empty());
        }
        t
    }

    /// Whether the task is completed.
    pub fn done(&self) -> (r: bool)
        ensures
            r == self@.done,
    {
        proof {
            lemma_unfold(*self);
        }
        self.done
    }

    /// The task's name.
    pub fn name(&self) -> (r: &str)
        ensures
            r@ == self@.name,
    {
        proof {
            lemma_unfold(*self);
        }
        self.name.as_str()
    }

    /// When the task is due.
    pub fn due(&self) -> (r: &Due)
        ensures
            r@ == self@.due,
    {
        proof {
            lemma_unfold(*self);
        }
        &self.due
    }

    /// The task's annotation, if it has one.
    pub fn special(&self) -> (r: Option<&str>)
        ensures
            match r {
                Some(s) => self@.special == Some(s@),
                None => self@.special is None,
            },
    {
        proof {
            lemma_unfold(*self);
        }
        match &self.special {
            Some(s) => Some(s.as_str()),
            None => None,
        }
    }

    /// The task's description, if it has one.
    pub fn desc(&self) -> (r: Option<&str>)
        ensures
            match r {
                Some(d) => self@.description == Some(d@),
                None => self@.description is None,
            },
    {
        proof {
            lemma_unfold(*self);
        }
        match &self.description {
            Some(d) => Some(d.as_str()),
            None => None,
        }
    }

    /// The task's subtasks, in their order.
    pub fn subtasks(&self) -> (r: &Vec<Task>)
        ensures
            models(r@) == self@.subtasks,
    {
        proof {
            lemma_unfold(*self);
        }
        &self.subtasks
    }

    /// Every task below this one with its path, which starts with this
    /// task's name: each subtask, followed at once by what is below it.
    pub fn subtasks_rec(&self) -> (rows: Vec<(String, &Task)>)
        ensures
            rows_model(rows@) == below(self@),
        decreases self,
    {
        proof {
            lemma_unfold(*self);
        }
        let mut rows: Vec<(String, &Task)> = Vec::new();
        let mut i: usize = 0;
        assert(self@.subtasks.take(0) =~= Seq::empty());
        assert(rows_model(rows@) =~= under(self@.name, spread(self@.subtasks.take(0))));
        while i < self.subtasks.len()
            invariant
                i <= self.subtasks.len(),
                self@.name == self.name@,
                self@.subtasks == models(self.subtasks@),
                rows_model(rows@) == under(self@.name, spread(self@.subtasks.take(i as int))),
            decreases self.subtasks.len() - i,
        {
            let child = &self.subtasks[i];
            let ghost before = spread(self@.subtasks.take(i as int));
            let ghost head = (child@.name, child@);
            proof {
                let upto = self@.subtasks.take(i + 1);
                assert(upto.drop_last() =~= self@.subtasks.take(i as int));
                assert(upto.last() == child@);
                assert(spread(upto) == before.push(head) + below(child@));
            }
            let ghost listed = rows@;
            rows.push((join_path(self.name.as_str(), child.name()), child));
            assert(rows_model(rows@) =~= rows_model(listed).push(
                (joined(self@.name, head.0), head.1),
            ));
            assert(under(self@.name, before.push(head)) =~= under(self@.name, before).push(
                (joined(self@.name, head.0), head.1),
            ));
            let deeper = child.subtasks_rec();
            let mut j: usize = 0;
            assert(below(child@).take(0) =~= Seq::empty());
            assert(before.push(head) + below(child@).take(0) =~= before.push(head));
            while j < deeper.len()
                invariant
                    j <= deeper.len(),
                    self@.name == self.name@,
                    rows_model(deeper@) == below(child@),
                    rows_model(rows@) == under(
                        self@.name,
                        before.push(head) + below(child@).take(j as int),
                    ),
                decreases deeper.len() - j,
            {
                let ghost so_far = before.push(head) + below(child@).take(j as int);
                let row = &deeper[j];
                let ghost next = below(child@)[j as int];
                let ghost listed = rows@;
                assert(rows_model(deeper@)[j as int] == (row.0@, row.1@));
                rows.push((join_path(self.name.as_str(), row.0.as_str()), row.1));
                assert(rows_model(rows@) =~= rows_model(listed).push(
                    (joined(self@.name, next.0), next.1),
                ));
                assert(under(self@.name, so_far.push(next)) =~= under(self@.name, so_far).push(
                    (joined(self@.name, next.0), next.1),
                ));
                assert(before.push(head) + below(child@).take(j + 1) =~= so_far.push(
                    below(child@)[j as int],
                ));
                assert(rows_model(rows@) =~= under(
                    self@.name,
                    so_far.push(below(child@)[j as int]),
                ));
                j += 1;
            }
            assert(below(child@).take(j as int) =~= below(child@));
            i += 1;
        }
        assert(self@.subtasks.take(i as int) =~= self@.subtasks);
        rows
    }

    /// How `lhs` stands to `rhs` by their due values.
    pub fn due_compare(lhs: &Task, rhs: &Task) -> (r: Ordering)
        ensures
            r == due_order(lhs@.due, rhs@.due),
    {
        proof {
            lemma_unfold(*lhs);
            lemma_unfold(*rhs);
        }
        lhs.due.cmp(&rhs.due)
    }

    /// Adds `line` to the description, on a line of its own.
    fn note(&mut self, line: &str)
        ensures
            final(self)@ == (TaskModel {
                description: Some(noted(old(self)@.description, line@)),
                ..old(self)@
            }),
    {
        proof {
            lemma_unfold(*self);
        }
        let text = match self.description.take() {
            Some(prior) => {
                let mut text = prior;
                text.push('\n');
                text.append(line);
                assert(text@ =~= prior@ + seq!['\n'] + line@);
                text
            },
            None => line.to_owned(),
        };
        self.description = Some(text);
        proof {
            lemma_unfold(*self);
            lemma_unfold(*old(self));
        }
    }
}

/// The line that lists a task: its path, and its due value in round
/// brackets unless it is never due.
pub open spec fn listing(path: Seq<char>, due: DueModel) -> Seq<char> {
    if due is Never {
        path
    } else {
        path + seq![' ', '('] + due_text(due) + seq![')']
    }
}

/// The line that lists `task` under `path`.
pub fn listing_line(path: &str, task: &Task) -> (r: String)
    ensures
        r@ == listing(path@, task@.due),
{
    let mut r = path.to_owned();
    match task.due() {
        Due::Never => {},
        due => {
            r.push(' ');
            r.push('(');
            r.append(due.to_string().as_str());
            r.push(')');
            assert(r@ =~= path@ + seq![' ', '('] + due_text(task@.due) + seq![')']);
        },
    }
    r
}

/// `rows` with `head` and a slash before every path.
pub fn rows_under<'t>(head: &str, rows: &Vec<(String, &'t Task)>) -> (r: Vec<(String, &'t Task)>)
    ensures
        rows_model(r@) == under(head@, rows_model(rows@)),
{
    let mut r: Vec<(String, &'t Task)> = Vec::new();
    let mut j: usize = 0;
    while j < rows.len()
        invariant
            j <= rows.len(),
            rows_model(r@) =~= under(head@, rows_model(rows@).take(j as int)),
        decreases rows.len() - j,
    {
        let row = &rows[j];
        let ghost next = rows_model(rows@)[j as int];
        let ghost listed = r@;
        assert(next == (row.0@, row.1@));
        r.push((join_path(head, row.0.as_str()), row.1));
        assert(rows_model(r@) =~= rows_model(listed).push((joined(head@, next.0), next.1)));
        assert(rows_model(rows@).take(j + 1) =~= rows_model(rows@).take(j as int).push(next));
        j += 1;
    }
    assert(rows_model(rows@).take(j as int) =~= rows_model(rows@));
    r
}

/// Takes in a task that the text holds at `depth`, and says whether it was
/// taken in: a second task of one name among the same siblings is dropped.
pub fn insert(tasks: &mut Vec<Task>, depth: usize, task: Task) -> (added: bool)
    ensures
        models(final(tasks)@) == inserted(models(old(tasks)@), depth as nat, task@),
        added == accepts(models(old(tasks)@), depth as nat, task@.name),
    decreases depth,
{
    if tasks.len() == 0 || depth == 0 {
        proof {
            lemma_unfold(task);
        }
        if contains_name(tasks, &task.name) {
            false
        } else {
            tasks.push(task);
            assert(models(tasks@) =~= models(old(tasks)@).push(task@));
            true
        }
    } else {
        let mut last = tasks.pop().unwrap();
        let ghost before = last;
        assert(models(old(tasks)@).last() == before@);
        assert(models(tasks@) =~= models(old(tasks)@).drop_last());
        proof {
            lemma_unfold(last);
        }
        let added = insert(&mut last.subtasks, depth - 1, task);
        proof {
            lemma_unfold(last);
        }
        let ghost prefix = tasks@;
        tasks.push(last);
        assert(models(tasks@) =~= models(prefix).push(last@));
        added
    }
}

/// Takes in a line of description that the text holds at `depth`, and says
/// whether a task got it.
pub fn describe(tasks: &mut Vec<Task>, depth: usize, line: &str) -> (attached: bool)
    ensures
        models(final(tasks)@) == described(models(old(tasks)@), depth as nat, line@),
        attached == (depth > 0 && old(tasks)@.len() > 0),
    decreases depth,
{
    if depth == 0 || tasks.len() == 0 {
        return false;
    }
    let mut last = tasks.pop().unwrap();
    let ghost before = last;
    assert(models(old(tasks)@).last() == before@);
    assert(models(tasks@) =~= models(old(tasks)@).drop_last());
    proof {
        lemma_unfold(last);
    }
    if last.subtasks.len() == 0 || depth == 1 {
        last.note(line);
    } else {
        describe(&mut last.subtasks, depth - 1, line);
        proof {
            lemma_unfold(last);
        }
    }
    let ghost prefix = tasks@;
    tasks.push(last);
    assert(models(tasks@) =~= models(prefix).push(last@));
    true
}

/// Where a task that is due at `due` goes among `tasks`: behind the last
/// task that is due no later, and at the start where there is none.
pub open spec fn slot(tasks: Seq<TaskModel>, due: DueModel) -> nat
    decreases tasks.len(),
{
    if tasks.len() == 0 || !due_later(tasks.last().due, due) {
        tasks.len()
    } else {
        slot(tasks.drop_last(), due)
    }
}

/// `task` with its subtasks arranged, at every depth.
pub open spec fn arranged(task: TaskModel) -> TaskModel
    decreases task, 1int,
{
    TaskModel { subtasks: arranged_all(task.subtasks), ..task }
}

/// `tasks` arranged by their due values: each task in turn, itself
/// arranged, goes to its slot among those before it. Tasks that compare as
/// equal stay in their order.
pub open spec fn arranged_all(tasks: Seq<TaskModel>) -> Seq<TaskModel>
    decreases tasks, 0int,
{
    if tasks.len() == 0 {
        tasks
    } else {
        let before = arranged_all(tasks.drop_last());
        let last = arranged(tasks.last());
        before.insert(slot(before, last.due) as int, last)
    }
}

/// Whether no task of `tasks` is due later than the task behind it.
pub open spec fn in_order(tasks: Seq<TaskModel>) -> bool {
    forall|i: int|
        0 <= i < tasks.len() - 1 ==> !due_later(#[trigger] tasks[i].due, tasks[i + 1].due)
}

/// The slot lies within the list; the task before it is due no later, and
/// every task from it on is due later.
proof fn lemma_slot(tasks: Seq<TaskModel>, due: DueModel)
    ensures
        slot(tasks, due) <= tasks.len(),
        slot(tasks, due) > 0 ==> !due_later(tasks[slot(tasks, due) - 1].due, due),
        forall|j: int|
            slot(tasks, due) <= j < tasks.len() ==> due_later(#[trigger] tasks[j].due, due),
    decreases tasks.len(),
{
    if !(tasks.len() == 0 || !due_later(tasks.last().due, due)) {
        lemma_slot(tasks.drop_last(), due);
        assert forall|j: int| slot(tasks, due) <= j < tasks.len() implies due_later(
            #[trigger] tasks[j].due,
            due,
        ) by {
            if j < tasks.len() - 1 {
                assert(tasks.drop_last()[j] == tasks[j]);
            }
        }
    }
}

/// Arranged tasks are in order, and so are the subtasks of each.
pub proof fn lemma_arranged_in_order(tasks: Seq<TaskModel>)
    ensures
        in_order(arranged_all(tasks)),
        arranged_all(tasks).len() == tasks.len(),
    decreases tasks.len(),
{
    if tasks.len() > 0 {
        let before = arranged_all(tasks.drop_last());
        let last = arranged(tasks.last());
        let k = slot(before, last.due) as int;
        let after = before.insert(k, last);
        lemma_arranged_in_order(tasks.drop_last());
        lemma_slot(before, last.due);
        assert forall|i: int| 0 <= i < after.len() - 1 implies !due_later(
            #[trigger] after[i].due,
            after[i + 1].due,
        ) by {
            if i + 1 < k {
                assert(after[i] == before[i] && after[i + 1] == before[i + 1]);
            } else if i + 1 == k {
                assert(after[i] == before[i] && after[i + 1] == last);
            } else if i == k {
                assert(after[i] == last && after[i + 1] == before[i]);
                lemma_later_one_way(before[i].due, last.due);
            } else {
                assert(after[i] == before[i - 1] && after[i + 1] == before[i]);
            }
        }
    }
}

/// Arranging neither drops nor adds a task: the arranged list holds each
/// task, itself arranged, as often as the list held it.
pub proof fn lemma_arranged_same_tasks(tasks: Seq<TaskModel>)
    ensures
        arranged_all(tasks).to_multiset() == tasks.map_values(
            |t: TaskModel| arranged(t),
        ).to_multiset(),
    decreases tasks.len(),
{
    let each = tasks.map_values(|t: TaskModel| arranged(t));
    if tasks.len() > 0 {
        let before = arranged_all(tasks.drop_last());
        let last = arranged(tasks.last());
        lemma_arranged_same_tasks(tasks.drop_last());
        lemma_slot(before, last.due);
        vstd::seq_lib::to_multiset_insert(before, slot(before, last.due) as int, last);
        let early = tasks.drop_last().map_values(|t: TaskModel| arranged(t));
        assert(each =~= early.push(last));
        vstd::seq_lib::to_multiset_build(early, last);
    } else {
        assert(each =~= arranged_all(tasks));
    }
}

/// Whether `a` is due later than `b`.
fn later(a: &Due, b: &Due) -> (r: bool)
    ensures
        r == due_later(a@, b@),
{
    match a.cmp(b) {
        Ordering::Greater => true,
        _ => false,
    }
}

/// Where a task that is due at `due` goes among `tasks`.
fn find_slot(tasks: &Vec<Task>, due: &Due) -> (k: usize)
    ensures
        k == slot(models(tasks@), due@),
        k <= tasks.len(),
{
    let mut k: usize = tasks.len();
    let mut found = false;
    assert(models(tasks@).take(k as int) =~= models(tasks@));
    while k > 0 && !found
        invariant
            k <= tasks.len(),
            slot(models(tasks@), due@) == slot(models(tasks@).take(k as int), due@),
            found ==> k > 0 && !due_later(models(tasks@)[k - 1].due, due@),
        decreases k + (if found { 0int } else { 1int }),
    {
        assert(models(tasks@).take(k as int).last() == tasks@[k - 1]@);
        if later(tasks[k - 1].due(), due) {
            assert(models(tasks@).take(k as int).drop_last() =~= models(tasks@).take(k - 1));
            k -= 1;
        } else {
            found = true;
        }
    }
    k
}

/// Arranges `tasks` by their due values, and the subtasks of each task in
/// the same way. Tasks that compare as equal stay in their order.
pub fn sort_tasks(tasks: &mut Vec<Task>)
    ensures
        models(final(tasks)@) == arranged_all(models(old(tasks)@)),
    decreases models(old(tasks)@),
{
    let mut rest: Vec<Task> = Vec::new();
    std::mem::swap(tasks, &mut rest);
    let ghost all = rest@;
    let total = rest.len();
    let mut done: usize = 0;
    assert(models(all).take(0) =~= Seq::empty());
    assert(models(tasks@) =~= Seq::empty());
    while rest.len() > 0
        invariant
            all == old(tasks)@,
            done + rest.len() == all.len(),
            all.len() == total,
            rest@ == all.skip(done as int),
            models(tasks@) == arranged_all(models(all).take(done as int)),
        decreases rest.len(),
    {
        let mut task = rest.remove(0);
        let ghost given = task;
        assert(given == all[done as int]);
        assert(rest@ =~= all.skip(done + 1));
        proof {
            lemma_unfold(task);
            assert(models(all)[done as int] == given@);
        }
        sort_tasks(&mut task.subtasks);
        proof {
            lemma_unfold(task);
            assert(task@ == arranged(given@));
            let upto = models(all).take(done + 1);
            assert(upto.drop_last() =~= models(all).take(done as int));
            assert(upto.last() == given@);
        }
        let k = find_slot(tasks, &task.due);
        let ghost before = tasks@;
        tasks.insert(k, task);
        assert(models(tasks@) =~= models(before).insert(k as int, task@));
        done += 1;
    }
    assert(models(all).take(done as int) =~= models(all));
}

} // verus!
