//! The reader undoes the writer: what was written reads back as the same
//! tasks, as long as every single line reads back as what it was written
//! from.
use crate::reader::{
    begins_with, body_of, checkbox, depth_of, fences, pattern_groups, run, step, task_of,
    with_line, with_task, ReaderModel, TASK_PATTERN,
};
use crate::task::{accepts, described, has_name, inserted, noted, TaskModel};
use crate::reader::{fresh, read_all};
use crate::text::{
    blanks, find, is_space, leading, leading_spaces, lemma_find_bound, trailing_spaces, trim,
};
use crate::writer::{note_lines, notes, task_line, written, written_all};
use vstd::prelude::*;

verus! {

/// Whether the way from `tasks` along the last tasks goes `depth` levels
/// down.
pub open spec fn deep(tasks: Seq<TaskModel>, depth: nat) -> bool
    decreases depth,
{
    depth == 0 || (tasks.len() > 0 && deep(tasks.last().subtasks, (depth - 1) as nat))
}

/// The list that the way from `tasks` along the last tasks reaches `depth`
/// levels down.
pub open spec fn level(tasks: Seq<TaskModel>, depth: nat) -> Seq<TaskModel>
    decreases depth,
{
    if depth == 0 || tasks.len() == 0 {
        tasks
    } else {
        level(tasks.last().subtasks, (depth - 1) as nat)
    }
}

/// `tasks` with `list` in the place of the list `depth` levels down.
pub open spec fn put(tasks: Seq<TaskModel>, depth: nat, list: Seq<TaskModel>) -> Seq<TaskModel>
    decreases depth,
{
    if depth == 0 || tasks.len() == 0 {
        list
    } else {
        tasks.drop_last().push(
            TaskModel { subtasks: put(tasks.last().subtasks, (depth - 1) as nat, list), ..tasks.last() },
        )
    }
}

/// Putting a list in place keeps the way down and is what the way reaches.
proof fn lemma_put_level(tasks: Seq<TaskModel>, depth: nat, list: Seq<TaskModel>)
    requires
        deep(tasks, depth),
    ensures
        deep(put(tasks, depth, list), depth),
        level(put(tasks, depth, list), depth) == list,
        depth > 0 ==> put(tasks, depth, list).len() > 0,
    decreases depth,
{
    if depth > 0 {
        lemma_put_level(tasks.last().subtasks, (depth - 1) as nat, list);
    }
}

/// Of two lists put in the same place the second stays.
proof fn lemma_put_put(
    tasks: Seq<TaskModel>,
    depth: nat,
    first: Seq<TaskModel>,
    second: Seq<TaskModel>,
)
    requires
        deep(tasks, depth),
    ensures
        put(put(tasks, depth, first), depth, second) == put(tasks, depth, second),
    decreases depth,
{
    if depth > 0 {
        lemma_put_put(tasks.last().subtasks, (depth - 1) as nat, first, second);
        let once = put(tasks, depth, first);
        assert(once.drop_last() =~= tasks.drop_last());
    }
}

/// One level further down lie the subtasks of the last task of the list
/// that the way reaches.
proof fn lemma_step_down(tasks: Seq<TaskModel>, depth: nat, list: Seq<TaskModel>)
    requires
        deep(tasks, depth),
        level(tasks, depth).len() > 0,
    ensures
        deep(tasks, depth + 1),
        level(tasks, depth + 1) == level(tasks, depth).last().subtasks,
        put(tasks, depth + 1, list) == put(
            tasks,
            depth,
            level(tasks, depth).drop_last().push(
                TaskModel { subtasks: list, ..level(tasks, depth).last() },
            ),
        ),
    decreases depth,
{
    reveal_with_fuel(deep, 2);
    reveal_with_fuel(level, 2);
    reveal_with_fuel(put, 2);
    if depth > 0 {
        lemma_step_down(tasks.last().subtasks, (depth - 1) as nat, list);
    }
}

/// A task that arrives where the way goes all the levels down, and finds
/// no task of its name there, joins the list that the way reaches.
proof fn lemma_inserted(tasks: Seq<TaskModel>, depth: nat, task: TaskModel)
    requires
        deep(tasks, depth),
        !has_name(level(tasks, depth), task.name),
    ensures
        inserted(tasks, depth, task) == put(tasks, depth, level(tasks, depth).push(task)),
        accepts(tasks, depth, task.name),
    decreases depth,
{
    if depth > 0 {
        lemma_inserted(tasks.last().subtasks, (depth - 1) as nat, task);
    }
}

/// A line of description that arrives one level below a task without
/// subtasks, the last of the list that the way reaches, goes to that task.
proof fn lemma_described(tasks: Seq<TaskModel>, depth: nat, line: Seq<char>)
    requires
        deep(tasks, depth),
        level(tasks, depth).len() > 0,
        level(tasks, depth).last().subtasks.len() == 0,
    ensures
        described(tasks, depth + 1, line) == put(
            tasks,
            depth,
            level(tasks, depth).drop_last().push(
                TaskModel {
                    description: Some(noted(level(tasks, depth).last().description, line)),
                    ..level(tasks, depth).last()
                },
            ),
        ),
    decreases depth,
{
    if depth > 0 {
        lemma_described(tasks.last().subtasks, (depth - 1) as nat, line);
        assert(tasks.last().subtasks.len() > 0);
    }
}

/// A text without `c` ends where the first `c` behind it stands.
proof fn lemma_find_appended(line: Seq<char>, c: char, rest: Seq<char>)
    requires
        find(line, c) == line.len(),
    ensures
        find(line + seq![c] + rest, c) == line.len(),
    decreases line.len(),
{
    let whole = line + seq![c] + rest;
    if line.len() > 0 {
        assert(whole[0] == line[0]);
        assert(whole.skip(1) =~= line.skip(1) + seq![c] + rest);
        lemma_find_appended(line.skip(1), c, rest);
    } else {
        assert(whole[0] == c);
    }
}

/// Before a text that starts with no blank stand as many blanks as were
/// put there.
proof fn lemma_leading_blanks(n: nat, content: Seq<char>)
    requires
        content.len() > 0,
        content[0] != ' ',
    ensures
        leading(blanks(n) + content, ' ') == n,
    decreases n,
{
    let whole = blanks(n) + content;
    if n > 0 {
        assert(whole[0] == ' ');
        assert(whole.skip(1) =~= blanks((n - 1) as nat) + content);
        lemma_leading_blanks((n - 1) as nat, content);
    } else {
        assert(whole =~= content);
    }
}

/// Blanks after blanks are as many blanks as both together.
proof fn lemma_blanks_joined(a: nat, b: nat)
    ensures
        blanks(a) + blanks(b) == blanks(a + b),
{
    assert(blanks(a) + blanks(b) =~= blanks(a + b));
}

/// A text that neither starts nor ends with white space is its own
/// trimmed form.
proof fn lemma_trim_tight(content: Seq<char>)
    requires
        content.len() > 0,
        !is_space(content[0]),
        !is_space(content.last()),
    ensures
        trim(content) == content,
{
    assert(leading_spaces(content) == 0);
    assert(content.skip(0) =~= content);
    assert(trailing_spaces(content) == 0);
    assert(content.take(content.len() as int) =~= content);
}

/// A text that holds no `c` before a second text has its first `c` where
/// the second text has it.
proof fn lemma_find_behind(head: Seq<char>, tail: Seq<char>, c: char)
    requires
        find(head, c) == head.len(),
    ensures
        find(head + tail, c) == head.len() + find(tail, c),
    decreases head.len(),
{
    let whole = head + tail;
    if head.len() > 0 {
        assert(whole[0] == head[0]);
        assert(whole.skip(1) =~= head.skip(1) + tail);
        lemma_find_behind(head.skip(1), tail, c);
    } else {
        assert(whole =~= tail);
    }
}

/// Blanks hold no line feed.
proof fn lemma_blanks_one_line(n: nat)
    ensures
        find(blanks(n), '\n') == n,
    decreases n,
{
    if n > 0 {
        assert(blanks(n).skip(1) =~= blanks((n - 1) as nat));
        lemma_blanks_one_line((n - 1) as nat);
    }
}

/// A line that the reader takes as it stands: it is not empty, holds no
/// line feed and no fence marker, and neither starts nor ends with white
/// space.
pub open spec fn clean(line: Seq<char>) -> bool {
    &&& line.len() > 0
    &&& find(line, '\n') == line.len()
    &&& !is_space(line[0])
    &&& !is_space(line.last())
    &&& fences(line) == 0
}

/// A clean line that opens no task.
pub open spec fn plain(line: Seq<char>) -> bool {
    &&& clean(line)
    &&& !begins_with(line, checkbox(' '))
    &&& !begins_with(line, checkbox('X'))
}

/// Whether every line of `text` is plain.
pub open spec fn plain_lines(text: Seq<char>) -> bool
    decreases text.len(),
{
    let n = find(text, '\n') as int;
    plain(text.take(n)) && (n >= text.len() || plain_lines(text.skip(n + 1)))
}

/// `task` without description and subtasks.
pub open spec fn bare(task: TaskModel) -> TaskModel {
    TaskModel { description: None, subtasks: Seq::empty(), ..task }
}

/// Whether the line that opens `task` reads back as `task`: what the task
/// pattern finds behind the checkbox gives the task's name, due value and
/// annotation.
pub open spec fn line_reads_back(task: TaskModel) -> bool {
    let text = trim(task_line(task).skip(5));
    task_of(task.done, text, pattern_groups(TASK_PATTERN@, text)) == bare(task)
}

/// Whether `task` and all below it can be written and read back: every line
/// that opens a task is clean and reads back, every line of description is
/// plain, and no two subtasks of one task share a name.
pub open spec fn tidy(task: TaskModel) -> bool
    decreases task, 1int,
{
    &&& clean(task_line(task))
    &&& line_reads_back(task)
    &&& (task.description matches Some(text) ==> plain_lines(text))
    &&& tidy_all(task.subtasks)
}

/// Whether every one of `tasks` is tidy and no two of them share a name.
pub open spec fn tidy_all(tasks: Seq<TaskModel>) -> bool
    decreases tasks, 0int,
{
    if tasks.len() == 0 {
        true
    } else {
        &&& tidy_all(tasks.drop_last())
        &&& tidy(tasks.last())
        &&& !has_name(tasks.drop_last(), tasks.last().name)
    }
}

/// The reader takes a clean line behind its indentation as it stands, at
/// the depth that the indentation gives.
proof fn lemma_padded(depth: nat, tab: nat, content: Seq<char>)
    requires
        tab > 0,
        clean(content),
    ensures
        depth_of(blanks(depth * tab) + content, tab) == depth,
        body_of(blanks(depth * tab) + content, tab) == content,
        find(blanks(depth * tab) + content, '\n') == depth * tab + content.len(),
{
    let raw = blanks(depth * tab) + content;
    lemma_leading_blanks(depth * tab, content);
    assert((depth * tab) / tab == depth) by (nonlinear_arith)
        requires
            tab > 0,
    ;
    assert(raw.skip((depth * tab) as int) =~= content);
    lemma_trim_tight(content);
    lemma_blanks_one_line(depth * tab);
    lemma_find_behind(blanks(depth * tab), content, '\n');
}

/// What the reader does with a clean line behind its indentation while no
/// fenced block is open.
proof fn lemma_step_clean(
    state: ReaderModel,
    depth: nat,
    tab: nat,
    content: Seq<char>,
    index: nat,
)
    requires
        tab > 0,
        clean(content),
        !state.fenced,
    ensures
        step(state, blanks(depth * tab) + content, tab, index) == (if begins_with(
            content,
            checkbox(' '),
        ) {
            with_task(state, depth, false, trim(content.skip(5)), index)
        } else if begins_with(content, checkbox('X')) {
            with_task(state, depth, true, trim(content.skip(5)), index)
        } else {
            with_line(state, depth, content)
        }),
{
    lemma_padded(depth, tab, content);
    let turned = ReaderModel { fenced: false, ..state };
    assert(turned == state);
}

/// The reader takes the first line of a text and goes on with the rest.
proof fn lemma_line(
    state: ReaderModel,
    raw: Seq<char>,
    rest: Seq<char>,
    tab: nat,
    index: nat,
)
    requires
        find(raw, '\n') == raw.len(),
    ensures
        run(state, raw + seq!['\n'] + rest, tab, index) == run(
            step(state, raw, tab, index),
            rest,
            tab,
            index + 1,
        ),
{
    let whole = raw + seq!['\n'] + rest;
    lemma_find_appended(raw, '\n', rest);
    assert(whole.take(raw.len() as int) =~= raw);
    assert(whole.skip(raw.len() as int + 1) =~= rest);
    if rest.len() == 0 {
        assert(run(step(state, raw, tab, index), rest, tab, index + 1) == step(
            state,
            raw,
            tab,
            index,
        ));
    }
}

/// The reader takes the lines of a description, written one level below
/// a task without subtasks, into that task's description. `task` is the
/// last of the list that lies `depth` levels down in the reader's tasks;
/// `before` is the rest of that list. The result is the reader that goes on
/// with `rest`, and the index of the line that `rest` starts with.
proof fn lemma_notes(
    state: ReaderModel,
    base: Seq<TaskModel>,
    depth: nat,
    before: Seq<TaskModel>,
    task: TaskModel,
    text: Seq<char>,
    rest: Seq<char>,
    tab: nat,
    index: nat,
) -> (r: (ReaderModel, nat))
    requires
        tab > 0,
        !state.fenced,
        state.open,
        deep(base, depth),
        state.tasks == put(base, depth, before.push(task)),
        task.subtasks.len() == 0,
        plain_lines(text),
    ensures
        run(state, note_lines(text, blanks((depth + 1) * tab)) + rest, tab, index) == run(
            r.0,
            rest,
            tab,
            r.1,
        ),
        r.0.tasks == put(
            base,
            depth,
            before.push(TaskModel { description: Some(noted(task.description, text)), ..task }),
        ),
        !r.0.fenced,
        r.0.open,
    decreases text.len(),
{
    let pad = blanks((depth + 1) * tab);
    let n = find(text, '\n') as int;
    lemma_find_bound(text, '\n');
    let line = text.take(n);
    let raw = pad + line;
    let told = TaskModel { description: Some(noted(task.description, line)), ..task };
    let next = step(state, raw, tab, index);
    lemma_step_clean(state, depth + 1, tab, line, index);
    lemma_padded(depth + 1, tab, line);
    lemma_put_level(base, depth, before.push(task));
    assert(state.tasks.len() > 0);
    lemma_described(state.tasks, depth, line);
    assert(before.push(task).drop_last() =~= before);
    lemma_put_put(base, depth, before.push(task), before.push(told));
    assert(next.tasks == put(base, depth, before.push(told)));
    if n >= text.len() {
        assert(line =~= text);
        assert(note_lines(text, pad) + rest =~= raw + seq!['\n'] + rest);
        lemma_line(state, raw, rest, tab, index);
        (next, index + 1)
    } else {
        let tail = text.skip(n + 1);
        let more = note_lines(tail, pad) + rest;
        assert(note_lines(text, pad) + rest =~= raw + seq!['\n'] + more);
        lemma_line(state, raw, more, tab, index);
        let r = lemma_notes(next, base, depth, before, told, tail, rest, tab, index + 1);
        assert(noted(told.description, tail) =~= noted(task.description, text));
        r
    }
}

/// The reader takes a tidy task as it was written into the list that lies
/// `depth` levels down in its tasks, where that list is `before` and holds
/// no task of that name. The result is the reader that goes on with `rest`,
/// and the index of the line that `rest` starts with.
proof fn lemma_task(
    state: ReaderModel,
    base: Seq<TaskModel>,
    depth: nat,
    before: Seq<TaskModel>,
    task: TaskModel,
    rest: Seq<char>,
    tab: nat,
    index: nat,
) -> (r: (ReaderModel, nat))
    requires
        tab > 0,
        !state.fenced,
        deep(base, depth),
        state.tasks == put(base, depth, before),
        !has_name(before, task.name),
        tidy(task),
    ensures
        run(state, written(task, blanks(depth * tab), blanks(tab)) + rest, tab, index) == run(
            r.0,
            rest,
            tab,
            r.1,
        ),
        r.0.tasks == put(base, depth, before.push(task)),
        !r.0.fenced,
    decreases task, 1int,
{
    let pad = blanks(depth * tab);
    let unit = blanks(tab);
    let deeper = blanks((depth + 1) * tab);
    assert(pad + unit == deeper) by {
        lemma_blanks_joined(depth * tab, tab);
        assert(depth * tab + tab == (depth + 1) * tab) by (nonlinear_arith);
    }
    let line = task_line(task);
    let mark = if task.done {
        'X'
    } else {
        ' '
    };
    assert(line.take(5) =~= checkbox(mark));
    assert(checkbox('X')[3] != checkbox(' ')[3]);
    let text = trim(line.skip(5));
    let first = with_task(state, depth, task.done, text, index);
    lemma_step_clean(state, depth, tab, line, index);
    lemma_padded(depth, tab, line);
    assert(step(state, pad + line, tab, index) == first);
    lemma_put_level(base, depth, before);
    lemma_inserted(state.tasks, depth, bare(task));
    lemma_put_put(base, depth, before, before.push(bare(task)));
    assert(first.tasks == put(base, depth, before.push(bare(task))));
    let below_text = written_all(task.subtasks, deeper, unit) + rest;
    let body = notes(task.description, deeper) + below_text;
    assert(written(task, pad, unit) + rest =~= (pad + line) + seq!['\n'] + body);
    lemma_line(state, pad + line, body, tab, index);
    let told = TaskModel { subtasks: Seq::empty(), ..task };
    let (second, at) = match task.description {
        Some(words) => {
            let r = lemma_notes(first, base, depth, before, bare(task), words, below_text, tab, index + 1);
            assert(noted(bare(task).description, words) == words);
            r
        },
        None => {
            assert(body =~= below_text);
            (first, index + 1)
        },
    };
    assert(second.tasks == put(base, depth, before.push(told)));
    let grown = put(base, depth, before.push(told));
    lemma_put_level(base, depth, before.push(told));
    lemma_step_down(grown, depth, Seq::empty());
    lemma_step_down(grown, depth, task.subtasks);
    assert(before.push(told).drop_last() =~= before);
    lemma_put_put(
        base,
        depth,
        before.push(told),
        before.push(TaskModel { subtasks: Seq::empty(), ..told }),
    );
    lemma_put_put(
        base,
        depth,
        before.push(told),
        before.push(TaskModel { subtasks: task.subtasks, ..told }),
    );
    assert(put(grown, depth + 1, Seq::empty()) == grown);
    let r = lemma_forest(second, grown, depth + 1, task.subtasks, rest, tab, at);
    assert(r.0.tasks == put(base, depth, before.push(task)));
    r
}

/// The reader takes tidy tasks as they were written into the list that
/// lies `depth` levels down in its tasks, where that list is empty. The
/// result is the reader that goes on with `rest`, and the index of the line
/// that `rest` starts with.
proof fn lemma_forest(
    state: ReaderModel,
    base: Seq<TaskModel>,
    depth: nat,
    tasks: Seq<TaskModel>,
    rest: Seq<char>,
    tab: nat,
    index: nat,
) -> (r: (ReaderModel, nat))
    requires
        tab > 0,
        !state.fenced,
        deep(base, depth),
        state.tasks == put(base, depth, Seq::empty()),
        tidy_all(tasks),
    ensures
        run(state, written_all(tasks, blanks(depth * tab), blanks(tab)) + rest, tab, index) == run(
            r.0,
            rest,
            tab,
            r.1,
        ),
        r.0.tasks == put(base, depth, tasks),
        !r.0.fenced,
    decreases tasks, 0int,
{
    let pad = blanks(depth * tab);
    let unit = blanks(tab);
    if tasks.len() == 0 {
        assert(written_all(tasks, pad, unit) + rest =~= rest);
        assert(tasks =~= Seq::empty());
        (state, index)
    } else {
        let last = written(tasks.last(), pad, unit) + rest;
        assert(written_all(tasks, pad, unit) + rest =~= written_all(tasks.drop_last(), pad, unit)
            + last);
        let r = lemma_forest(state, base, depth, tasks.drop_last(), last, tab, index);
        let r = lemma_task(r.0, base, depth, tasks.drop_last(), tasks.last(), rest, tab, r.1);
        assert(tasks.drop_last().push(tasks.last()) =~= tasks);
        r
    }
}

/// What the writer wrote for tidy tasks, the reader reads as those tasks.
pub proof fn lemma_reads_back(tasks: Seq<TaskModel>, tab: nat)
    requires
        tab > 0,
        tidy_all(tasks),
    ensures
        read_all(written_all(tasks, Seq::empty(), blanks(tab)), tab).tasks == tasks,
{
    let text = written_all(tasks, Seq::empty(), blanks(tab));
    assert(blanks(0 * tab) =~= Seq::empty());
    assert(text + Seq::<char>::empty() =~= text);
    let r = lemma_forest(fresh(), Seq::empty(), 0, tasks, Seq::empty(), tab, 0);
}

} // verus!
