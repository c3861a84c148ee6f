//! From tasks to text: the inverse of the reader. Every task is written as
//! a checkbox line; its description and its subtasks follow, indented by one
//! level more.
use crate::due::{due_text, DueModel};
use crate::reader::checkbox;
use crate::task::{models, Task, TaskModel};
use crate::text::{blank_string, blanks, chars_of, find, find_char, push_chars};
use vstd::prelude::*;
use vstd::slice::slice_subrange;
use vstd::string::StringExecFns;

verus! {

/// What follows the name on a task line. A due value, or an annotation,
/// brings ` (<due>)`, in which nothing stands for `Never`; an annotation
/// then brings ` @ <annotation>`.
pub open spec fn suffix(due: DueModel, special: Option<Seq<char>>) -> Seq<char> {
    let bracket = if !(due is Never) || special is Some {
        seq![' ', '('] + due_text(due) + seq![')']
    } else {
        Seq::empty()
    };
    match special {
        Some(s) => bracket + seq![' ', '@', ' '] + s,
        None => bracket,
    }
}

/// The line that opens `task`, without indentation: the checkbox, a blank,
/// the name and what follows the name.
pub open spec fn task_line(task: TaskModel) -> Seq<char> {
    checkbox(
        if task.done {
            'X'
        } else {
            ' '
        },
    ) + seq![' '] + task.name + suffix(task.due, task.special)
}

/// Every line of `text`, each after `pad` and ended by a line feed.
pub open spec fn note_lines(text: Seq<char>, pad: Seq<char>) -> Seq<char>
    decreases text.len(),
{
    let n = find(text, '\n') as int;
    let line = pad + text.take(n) + seq!['\n'];
    if n >= text.len() {
        line
    } else {
        line + note_lines(text.skip(n + 1), pad)
    }
}

/// The description of a task, written behind `pad`.
pub open spec fn notes(description: Option<Seq<char>>, pad: Seq<char>) -> Seq<char> {
    match description {
        Some(text) => note_lines(text, pad),
        None => Seq::empty(),
    }
}

/// `task` as text. Its checkbox line stands behind `pad`; its description
/// and its subtasks stand behind `pad` and `unit`, which is one level of
/// indentation.
pub open spec fn written(task: TaskModel, pad: Seq<char>, unit: Seq<char>) -> Seq<char>
    decreases task, 1int,
{
    pad + task_line(task) + seq!['\n'] + notes(task.description, pad + unit) + written_all(
        task.subtasks,
        pad + unit,
        unit,
    )
}

/// `tasks` as text, one after the other, each behind `pad`.
pub open spec fn written_all(tasks: Seq<TaskModel>, pad: Seq<char>, unit: Seq<char>) -> Seq<char>
    decreases tasks, 0int,
{
    if tasks.len() == 0 {
        Seq::empty()
    } else {
        written_all(tasks.drop_last(), pad, unit) + written(tasks.last(), pad, unit)
    }
}

/// Appends what follows the name on the line of `task`.
fn write_suffix(out: &mut String, task: &Task)
    ensures
        final(out)@ == old(out)@ + suffix(task@.due, task@.special),
{
    let due = task.due().to_string();
    let special = task.special();
    let dated = match task.due() {
        crate::due::Due::Never => false,
        _ => true,
    };
    if dated || special.is_some() {
        out.push(' ');
        out.push('(');
        out.append(due.as_str());
        out.push(')');
        assert(out@ =~= old(out)@ + (seq![' ', '('] + due_text(task@.due) + seq![')']));
    } else {
        assert(out@ =~= old(out)@ + Seq::<char>::empty());
    }
    let ghost bracketed = out@;
    match special {
        Some(s) => {
            out.push(' ');
            out.push('@');
            out.push(' ');
            out.append(s);
            assert(out@ =~= bracketed + seq![' ', '@', ' '] + s@);
            assert(out@ =~= old(out)@ + suffix(task@.due, task@.special));
        },
        None => {},
    }
}

/// Appends the lines of `text`, each behind `pad`.
fn write_notes(out: &mut String, text: &str, pad: &str)
    ensures
        final(out)@ == old(out)@ + note_lines(text@, pad@),
{
    let chars = chars_of(text);
    let all = chars.as_slice();
    let mut pos: usize = 0;
    let mut going = true;
    assert(all@.skip(0) == all@);
    while going
        invariant
            pos <= all.len(),
            all@ == text@,
            going ==> out@ + note_lines(all@.skip(pos as int), pad@) == old(out)@ + note_lines(
                text@,
                pad@,
            ),
            !going ==> out@ == old(out)@ + note_lines(text@, pad@),
        decreases all.len() - pos + (if going { 1int } else { 0int }),
    {
        let ghost before = out@;
        let rest = slice_subrange(all, pos, all.len());
        let n = find_char(rest, '\n');
        out.append(pad);
        push_chars(out, slice_subrange(rest, 0, n));
        out.push('\n');
        let ghost line = pad@ + rest@.take(n as int) + seq!['\n'];
        assert(out@ =~= before + line);
        if n == rest.len() {
            going = false;
            assert(before + line =~= before + note_lines(rest@, pad@));
        } else {
            assert(rest@.skip(n + 1) == all@.skip(pos + n + 1));
            assert(before + note_lines(rest@, pad@) =~= before + line + note_lines(
                rest@.skip(n + 1),
                pad@,
            ));
            pos = pos + n + 1;
        }
    }
}

/// Appends `task`: its line behind `pad`, the rest one `unit` deeper.
fn write_task(out: &mut String, task: &Task, pad: &str, unit: &str)
    ensures
        final(out)@ == old(out)@ + written(task@, pad@, unit@),
    decreases task@, 1int,
{
    out.append(pad);
    out.push('-');
    out.push(' ');
    out.push('[');
    out.push(
        if task.done() {
            'X'
        } else {
            ' '
        },
    );
    out.push(']');
    out.push(' ');
    out.append(task.name());
    let ghost named = out@;
    assert(named =~= old(out)@ + (pad@ + checkbox(
        if task@.done {
            'X'
        } else {
            ' '
        },
    ) + seq![' '] + task@.name));
    write_suffix(out, task);
    out.push('\n');
    let ghost headed = out@;
    assert(headed =~= old(out)@ + (pad@ + task_line(task@) + seq!['\n']));
    let mut deeper = pad.to_owned();
    deeper.append(unit);
    match task.desc() {
        Some(text) => {
            write_notes(out, text, deeper.as_str());
        },
        None => {},
    }
    let ghost noted = out@;
    assert(noted =~= headed + notes(task@.description, pad@ + unit@));
    write_all(out, task.subtasks(), deeper.as_str(), unit);
    assert(out@ =~= old(out)@ + written(task@, pad@, unit@));
}

/// Appends `tasks`, each behind `pad`.
fn write_all(out: &mut String, tasks: &Vec<Task>, pad: &str, unit: &str)
    ensures
        final(out)@ == old(out)@ + written_all(models(tasks@), pad@, unit@),
    decreases models(tasks@), 0int,
{
    let mut i: usize = 0;
    assert(models(tasks@).take(0) =~= Seq::empty());
    assert(out@ =~= old(out)@ + written_all(models(tasks@).take(0), pad@, unit@));
    while i < tasks.len()
        invariant
            i <= tasks.len(),
            out@ == old(out)@ + written_all(models(tasks@).take(i as int), pad@, unit@),
        decreases tasks.len() - i,
    {
        let ghost before = out@;
        let ghost upto = models(tasks@).take(i + 1);
        assert(upto.drop_last() =~= models(tasks@).take(i as int));
        assert(upto.last() == tasks@[i as int]@);
        assert(models(tasks@)[i as int] == tasks@[i as int]@);
        write_task(out, &tasks[i], pad, unit);
        assert(out@ =~= old(out)@ + written_all(upto, pad@, unit@));
        i += 1;
    }
    assert(models(tasks@).take(i as int) =~= models(tasks@));
}

/// The text for `tasks`, with `tab_size` blanks to a level of indentation.
pub fn render_tasks(tasks: &Vec<Task>, tab_size: usize) -> (r: String)
    ensures
        r@ == written_all(models(tasks@), Seq::empty(), blanks(tab_size as nat)),
{
    let unit = blank_string(tab_size);
    let pad = String::new();
    let mut out = String::new();
    write_all(&mut out, tasks, pad.as_str(), unit.as_str());
    assert(out@ =~= written_all(models(tasks@), Seq::empty(), blanks(tab_size as nat)));
    out
}

} // verus!
