//! Tasks and their status: the leaf values that folders hold.

use vstd::prelude::*;
use vstd::string::StringExecFns;

verus! {

/// The file a task is kept in.
#[derive(Clone, Copy, Debug, PartialEq, Eq, Structural)]
pub enum TaskFile {
    Main,
    Trash,
    Complete,
}

impl Default for TaskFile {
    fn default() -> (file: TaskFile)
        ensures
            file == TaskFile::Main,
    {
        TaskFile::Main
    }
}

/// A short label and the index of the colour it is shown in.
#[derive(Debug)]
pub struct Status {
    pub status: String,
    pub color: u8,
}

/// What a `Status` holds, as plain values.
pub struct StatusView {
    pub label: Seq<char>,
    pub color: u8,
}

impl StatusView {
    /// The status of a task that nobody has touched: `"Incomplete"`, colour 5.
    pub open spec fn initial() -> StatusView {
        StatusView { label: "Incomplete"@, color: 5 }
    }
}

impl View for Status {
    type V = StatusView;

    open spec fn view(&self) -> StatusView {
        StatusView { label: self.status@, color: self.color }
    }
}

impl Default for Status {
    fn default() -> (status: Status)
        ensures
            status@ == StatusView::initial(),
    {
        Status { status: String::from_str("Incomplete"), color: 5 }
    }
}

impl Clone for Status {
    fn clone(&self) -> (copy: Status)
        ensures
            copy == *self,
    {
        Status { status: self.status.clone(), color: self.color }
    }
}

/// A titled item with a free-text body and a status.
#[derive(Debug)]
pub struct Task {
    pub title: String,
    pub task: String,
    pub status: Status,
}

/// What a `Task` holds, as plain values.
pub struct TaskView {
    pub title: Seq<char>,
    pub body: Seq<char>,
    pub status: StatusView,
}

impl TaskView {
    /// The task with no title, no body and the initial status.
    pub open spec fn blank() -> TaskView {
        TaskView { title: Seq::empty(), body: Seq::empty(), status: StatusView::initial() }
    }
}

impl View for Task {
    type V = TaskView;

    open spec fn view(&self) -> TaskView {
        TaskView { title: self.title@, body: self.task@, status: self.status@ }
    }
}

impl Default for Task {
    fn default() -> (task: Task)
        ensures
            task@ == TaskView::blank(),
    {
        Task { title: String::new(), task: String::new(), status: Status::default() }
    }
}

impl Clone for Task {
    fn clone(&self) -> (copy: Task)
        ensures
            copy == *self,
    {
        Task { title: self.title.clone(), task: self.task.clone(), status: self.status.clone() }
    }
}

} // verus!
