//! From text to tasks. The text is read line by line: how far a line is
//! indented says how deep it lies, a checkbox opens a task, and any other
//! line below a task describes it. Lines inside a fenced block are skipped.
use crate::due::{read_due, Due, DueModel};
use crate::task::{accepts, describe, described, insert, inserted, models, Task, TaskModel};
use crate::text::{
    chars_of, count_leading_blanks, find, find_char, leading, string_of, text_model, trim, trimmed,
};
use vstd::prelude::*;
use vstd::slice::slice_subrange;

verus! {

/// The shape of a task line: a name, a due value in round brackets, and
/// optionally an annotation after an `@`.
pub const TASK_PATTERN: &'static str = r"^(.+)\s*\((.*)\)(?:\s*@\s*(.*))?$";

/// What the regular expression `pattern` finds in `text`: the text of every
/// group of its leftmost match, the whole match first and `None` for a group
/// that took no part, or `None` where `pattern` is no regular expression or
/// does not match.
pub uninterp spec fn pattern_groups(pattern: Seq<char>, text: Seq<char>) -> Option<
    Seq<Option<Seq<char>>>,
>;

/// What a list of groups holds.
pub open spec fn groups_model(groups: Option<Vec<Option<String>>>) -> Option<
    Seq<Option<Seq<char>>>,
> {
    match groups {
        Some(found) => Some(found@.map_values(|group: Option<String>| text_model(group))),
        None => None,
    }
}

/// Compiles `pattern` with `regex::Regex::new`, searches `text` with
/// `Regex::captures` and copies the text of each group out of what was
/// found. The result is a function of the two texts alone.
#[verifier::external_body]
fn regex_groups(pattern: &str, text: &str) -> (r: Option<Vec<Option<String>>>)
    ensures
        groups_model(r) == pattern_groups(pattern@, text@),
{
    let expression = regex::Regex::new(pattern).ok()?;
    let found = expression.captures(text)?;
    Some(found.iter().map(|group| group.map(|part| part.as_str().to_owned())).collect())
}

/// Something that the reader passed over, with the index of the line, which
/// counts from 0.
#[derive(Clone, Copy, Debug, PartialEq, Eq, Structural)]
pub enum Diagnostic {
    /// The line holds a due value that could not be read: the task is never due.
    UnreadableDue { line: usize },
    /// The line holds a task whose name one of its siblings has: it was dropped.
    DuplicateName { line: usize },
}

/// What a reader holds: the tasks read so far, whether a fenced block is
/// open, whether the last line that counted belongs to a task, and the
/// diagnostics so far.
pub struct ReaderModel {
    pub tasks: Seq<TaskModel>,
    pub fenced: bool,
    pub open: bool,
    pub notes: Seq<Diagnostic>,
}

/// How many units of `tab` blanks `raw` begins with.
pub open spec fn depth_of(raw: Seq<char>, tab: nat) -> nat {
    leading(raw, ' ') / tab
}

/// What `raw` says: the line without its indentation and without the white
/// space at either end.
pub open spec fn body_of(raw: Seq<char>, tab: nat) -> Seq<char> {
    trim(raw.skip((depth_of(raw, tab) * tab) as int))
}

/// How many fence markers, three backticks each, `s` holds, counted from
/// the left without overlap.
pub open spec fn fences(s: Seq<char>) -> nat
    decreases s.len(),
{
    if s.len() < 3 {
        0
    } else if s[0] == '`' && s[1] == '`' && s[2] == '`' {
        1 + fences(s.skip(3))
    } else {
        fences(s.skip(1))
    }
}

/// The checkbox of a task: `- [ ]` where `mark` is a blank, `- [X]` where it
/// is an `X`.
pub open spec fn checkbox(mark: char) -> Seq<char> {
    seq!['-', ' ', '[', mark, ']']
}

/// Whether `s` begins with `p`.
pub open spec fn begins_with(s: Seq<char>, p: Seq<char>) -> bool {
    s.len() >= p.len() && s.take(p.len() as int) == p
}

/// The name, the due text and the annotation that a task line holds, given
/// what the task pattern found in it. Where the pattern found its groups,
/// the first is the name, the second the due text and the third, if it took
/// part, the annotation. Else the whole line is the name.
pub open spec fn parts(text: Seq<char>, groups: Option<Seq<Option<Seq<char>>>>) -> (
    Seq<char>,
    Option<Seq<char>>,
    Option<Seq<char>>,
) {
    match groups {
        Some(found) => if found.len() == 4 && found[1] is Some && found[2] is Some {
            (trim(found[1]->0), found[2], found[3])
        } else {
            (trim(text), None, None)
        },
        None => (trim(text), None, None),
    }
}

/// When the task of a line is due: what its due text says, and never where
/// there is none or it cannot be read.
pub open spec fn due_of(when: Option<Seq<char>>) -> DueModel {
    match when {
        Some(w) => match read_due(w) {
            Some(due) => due,
            None => DueModel::Never,
        },
        None => DueModel::Never,
    }
}

/// The task that a task line opens, given what the task pattern found in it.
pub open spec fn task_of(
    done: bool,
    text: Seq<char>,
    groups: Option<Seq<Option<Seq<char>>>>,
) -> TaskModel {
    let p = parts(text, groups);
    TaskModel {
        done,
        name: p.0,
        due: due_of(p.1),
        special: p.2,
        description: None,
        subtasks: Seq::empty(),
    }
}

/// Whether a task line holds a due text that cannot be read.
pub open spec fn due_unreadable(text: Seq<char>, groups: Option<Seq<Option<Seq<char>>>>) -> bool {
    match parts(text, groups).1 {
        Some(w) => read_due(w) is None,
        None => false,
    }
}

/// The reader after a task line at `depth` whose text, behind the checkbox,
/// is `text`.
pub open spec fn with_task(
    state: ReaderModel,
    depth: nat,
    done: bool,
    text: Seq<char>,
    index: nat,
) -> ReaderModel {
    let groups = pattern_groups(TASK_PATTERN@, text);
    let task = task_of(done, text, groups);
    let first = if due_unreadable(text, groups) {
        state.notes.push(Diagnostic::UnreadableDue { line: index as usize })
    } else {
        state.notes
    };
    let notes = if accepts(state.tasks, depth, task.name) {
        first
    } else {
        first.push(Diagnostic::DuplicateName { line: index as usize })
    };
    ReaderModel { tasks: inserted(state.tasks, depth, task), fenced: state.fenced, open: true, notes }
}

/// The reader after a line at `depth` that opens no task. Below an open
/// task, at a depth above 0, it describes a task; anywhere else it is
/// dropped and closes the task.
pub open spec fn with_line(state: ReaderModel, depth: nat, text: Seq<char>) -> ReaderModel {
    if depth > 0 && state.tasks.len() > 0 && state.open {
        ReaderModel { tasks: described(state.tasks, depth, text), ..state }
    } else {
        ReaderModel { open: false, ..state }
    }
}

/// The reader after the line `raw`, which is line `index` of the text.
pub open spec fn step(state: ReaderModel, raw: Seq<char>, tab: nat, index: nat) -> ReaderModel {
    let depth = depth_of(raw, tab);
    let text = body_of(raw, tab);
    let fenced = state.fenced != (fences(text) % 2 == 1);
    let turned = ReaderModel { fenced, ..state };
    if fenced || text.len() == 0 {
        turned
    } else if begins_with(text, checkbox(' ')) {
        with_task(turned, depth, false, trim(text.skip(5)), index)
    } else if begins_with(text, checkbox('X')) {
        with_task(turned, depth, true, trim(text.skip(5)), index)
    } else {
        with_line(turned, depth, text)
    }
}

/// The reader after every line of `text`, the first of which is line
/// `index`. Lines end at a line feed.
pub open spec fn run(state: ReaderModel, text: Seq<char>, tab: nat, index: nat) -> ReaderModel
    decreases text.len(),
{
    if text.len() == 0 {
        state
    } else {
        let n = find(text, '\n') as int;
        let next = step(state, text.take(n), tab, index);
        if n >= text.len() {
            next
        } else {
            run(next, text.skip(n + 1), tab, index + 1)
        }
    }
}

/// A reader that has read nothing.
pub open spec fn fresh() -> ReaderModel {
    ReaderModel { tasks: Seq::empty(), fenced: false, open: false, notes: Seq::empty() }
}

/// What the whole of `text` reads as.
pub open spec fn read_all(text: Seq<char>, tab: nat) -> ReaderModel {
    run(fresh(), text, tab, 0)
}

/// How many fence markers `s` holds.
fn count_fences(s: &[char]) -> (n: usize)
    ensures
        n == fences(s@),
{
    let mut i: usize = 0;
    let mut n: usize = 0;
    assert(s@.skip(0) == s@);
    while s.len() - i >= 3
        invariant
            i <= s.len(),
            n <= i,
            fences(s@) == n + fences(s@.skip(i as int)),
        decreases s.len() - i,
    {
        let ghost rest = s@.skip(i as int);
        assert(rest[0] == s@[i as int] && rest[1] == s@[i + 1] && rest[2] == s@[i + 2]);
        if s[i] == '`' && s[i + 1] == '`' && s[i + 2] == '`' {
            assert(rest.skip(3) == s@.skip(i + 3));
            n += 1;
            i += 3;
        } else {
            assert(rest.skip(1) == s@.skip(i + 1));
            i += 1;
        }
    }
    n
}

/// Whether `s` begins with the checkbox that holds `mark`.
fn has_checkbox(s: &[char], mark: char) -> (r: bool)
    ensures
        r == begins_with(s@, checkbox(mark)),
{
    if s.len() >= 5 && s[0] == '-' && s[1] == ' ' && s[2] == '[' && s[3] == mark && s[4] == ']' {
        assert(s@.take(5) =~= checkbox(mark));
        true
    } else {
        assert(s@.len() >= 5 ==> s@.take(5)[0] == s@[0] && s@.take(5)[1] == s@[1] && s@.take(5)[2]
            == s@[2] && s@.take(5)[3] == s@[3] && s@.take(5)[4] == s@[4]);
        false
    }
}

/// The task that a task line opens, and whether the line holds a due text
/// that cannot be read. `text` is the line behind its checkbox and `groups`
/// is what the task pattern found in it.
pub fn task_from_groups(done: bool, text: &str, groups: Option<Vec<Option<String>>>) -> (r: (
    Task,
    bool,
))
    ensures
        r.0@ == task_of(done, text@, groups_model(groups)),
        r.1 == due_unreadable(text@, groups_model(groups)),
{
    let mut name_text: Option<String> = None;
    let mut when: Option<String> = None;
    let mut special: Option<String> = None;
    match groups {
        Some(found) => {
            let mut found = found;
            let ghost all = found@;
            if found.len() == 4 {
                let third = found.pop().unwrap();
                let second = found.pop().unwrap();
                let first = found.pop().unwrap();
                assert(first == all[1] && second == all[2] && third == all[3]);
                if first.is_some() && second.is_some() {
                    name_text = first;
                    when = second;
                    special = third;
                }
            }
        },
        None => {},
    }
    let name = match name_text {
        Some(n) => {
            let chars = chars_of(n.as_str());
            string_of(trimmed(chars.as_slice()))
        },
        None => {
            let chars = chars_of(text);
            string_of(trimmed(chars.as_slice()))
        },
    };
    let (due, unreadable) = match when {
        Some(w) => match Due::parse(w.as_str()) {
            Some(due) => (due, false),
            None => (Due::Never, true),
        },
        None => (Due::Never, false),
    };
    (Task::new(done, name, due, special), unreadable)
}

/// The task that a task line opens, and whether the line holds a due text
/// that cannot be read. `text` is the line behind its checkbox.
pub fn read_task(done: bool, text: &str) -> (r: (Task, bool))
    ensures
        r.0@ == task_of(done, text@, pattern_groups(TASK_PATTERN@, text@)),
        r.1 == due_unreadable(text@, pattern_groups(TASK_PATTERN@, text@)),
{
    let groups = regex_groups(TASK_PATTERN, text);
    task_from_groups(done, text, groups)
}

/// Reads a text line by line.
pub struct Reader {
    tasks: Vec<Task>,
    fenced: bool,
    open: bool,
    notes: Vec<Diagnostic>,
}

impl View for Reader {
    type V = ReaderModel;

    closed spec fn view(&self) -> ReaderModel {
        ReaderModel {
            tasks: models(self.tasks@),
            fenced: self.fenced,
            open: self.open,
            notes: self.notes@,
        }
    }
}

impl Reader {
    /// A reader that has read nothing.
    pub fn new() -> (r: Reader)
        ensures
            r@ == fresh(),
    {
        let r = Reader { tasks: Vec::new(), fenced: false, open: false, notes: Vec::new() };
        assert(models(r.tasks@) =~= Seq::empty());
        r
    }

    /// Takes in a task line at `depth` whose text, behind the checkbox, is `text`.
    fn take_task(&mut self, depth: usize, done: bool, text: &[char], index: usize)
        ensures
            final(self)@ == with_task(old(self)@, depth as nat, done, text@, index as nat),
    {
        let line = string_of(text);
        let (task, unreadable) = read_task(done, line.as_str());
        if unreadable {
            self.notes.push(Diagnostic::UnreadableDue { line: index });
        }
        let added = insert(&mut self.tasks, depth, task);
        if !added {
            self.notes.push(Diagnostic::DuplicateName { line: index });
        }
        self.open = true;
    }

    /// Takes in a line at `depth` that opens no task.
    fn take_line(&mut self, depth: usize, text: &[char])
        ensures
            final(self)@ == with_line(old(self)@, depth as nat, text@),
    {
        if depth > 0 && self.tasks.len() > 0 && self.open {
            let line = string_of(text);
            describe(&mut self.tasks, depth, line.as_str());
        } else {
            self.open = false;
        }
    }

    /// Reads the line `raw`, which is line `index` of the text and holds no
    /// line feed of its own. `tab` is the number of blanks that make one
    /// level of indentation.
    pub fn feed(&mut self, raw: &[char], tab: usize, index: usize)
        requires
            tab > 0,
        ensures
            final(self)@ == step(old(self)@, raw@, tab as nat, index as nat),
    {
        let blanks = count_leading_blanks(raw);
        let depth = blanks / tab;
        assert(depth * tab <= blanks) by (nonlinear_arith)
            requires
                depth == blanks / tab,
                tab > 0,
        ;
        let text = trimmed(slice_subrange(raw, depth * tab, raw.len()));
        assert(text@ == body_of(raw@, tab as nat));
        if count_fences(text) % 2 == 1 {
            self.fenced = !self.fenced;
        }
        if self.fenced || text.len() == 0 {
            return ;
        }
        if has_checkbox(text, ' ') {
            self.take_task(depth, false, trimmed(slice_subrange(text, 5, text.len())), index);
        } else if has_checkbox(text, 'X') {
            self.take_task(depth, true, trimmed(slice_subrange(text, 5, text.len())), index);
        } else {
            self.take_line(depth, text);
        }
    }

    /// The tasks and the diagnostics that the reader has gathered.
    pub fn finish(self) -> (r: (Vec<Task>, Vec<Diagnostic>))
        ensures
            models(r.0@) == self@.tasks,
            r.1@ == self@.notes,
    {
        (self.tasks, self.notes)
    }
}

/// Reads the tasks that `content` holds, with `tab_size` blanks to a level
/// of indentation, and says what was passed over.
pub fn parse_tasks(content: &str, tab_size: usize) -> (r: (Vec<Task>, Vec<Diagnostic>))
    requires
        tab_size > 0,
    ensures
        models(r.0@) == read_all(content@, tab_size as nat).tasks,
        r.1@ == read_all(content@, tab_size as nat).notes,
{
    let chars = chars_of(content);
    let all = chars.as_slice();
    let mut reader = Reader::new();
    let mut pos: usize = 0;
    let mut index: usize = 0;
    assert(all@.skip(0) == all@);
    while pos < all.len()
        invariant
            tab_size > 0,
            pos <= all.len(),
            index <= pos,
            all@ == content@,
            run(reader@, all@.skip(pos as int), tab_size as nat, index as nat) == read_all(
                content@,
                tab_size as nat,
            ),
        decreases all.len() - pos,
    {
        let rest = slice_subrange(all, pos, all.len());
        let n = find_char(rest, '\n');
        let raw = slice_subrange(rest, 0, n);
        reader.feed(raw, tab_size, index);
        if n == rest.len() {
            pos = all.len();
            assert(all@.skip(pos as int).len() == 0);
        } else {
            assert(rest@.skip(n + 1) == all@.skip(pos + n + 1));
            pos = pos + n + 1;
            index = index + 1;
        }
    }
    reader.finish()
}

} // verus!
