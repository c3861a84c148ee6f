//! A personal task list kept as plain text: topics are folders and files,
//! tasks are checkbox lines, and every task may carry a due date, a short
//! annotation, a description and subtasks.
//!
//! The modules, leaves first: `text` (character sequences), `moment`
//! (calendar minutes), `due` (when a task is due), `task`, `reader` (text to
//! tasks), `writer` (tasks to text), `inverse` (the reader undoes the
//! writer), `topic` (the tree of topics) and `store` (what is to change on
//! disk).
pub mod text;
pub mod moment;
pub mod due;
pub mod task;
pub mod reader;
pub mod writer;
pub mod inverse;
pub mod topic;
pub mod store;
