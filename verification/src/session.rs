//! The interactive session: the folder tree, the place in it that is shown,
//! and the modal input state that turns keys into changes of the tree.

use crate::buffer::{apply_edit, buffer_cursor, buffer_text, edited, Edit};
use crate::folder::{path_view, Folder, FolderView};
use crate::task::{StatusView, Task, TaskView};
use crate::text::{color_of, confirms, is_yes, parse_color};
use std::collections::VecDeque;
use tui_input::Input;
use vstd::pervasive::unreached;
use vstd::prelude::*;
use vstd::string::StringExecFns;

verus! {

/// One field asked for by a prompt about a task.
#[derive(Clone, Copy, Debug, PartialEq, Eq, Structural)]
pub enum TaskStep {
    Title,
    Details,
    Status,
    StatusColor,
}

impl TaskStep {
    /// What the prompt for this field asks.
    pub open spec fn message(self) -> Seq<char> {
        match self {
            TaskStep::Title => "Please input title"@,
            TaskStep::Details => "Please input details"@,
            TaskStep::Status => "Please input status"@,
            TaskStep::StatusColor => "Please input ansii color code"@,
        }
    }

    /// What the prompt for this field asks.
    pub fn to_message(&self) -> (message: &'static str)
        ensures
            message@ == self.message(),
    {
        match self {
            TaskStep::Title => "Please input title",
            TaskStep::Details => "Please input details",
            TaskStep::Status => "Please input status",
            TaskStep::StatusColor => "Please input ansii color code",
        }
    }

    /// `task` with the text for this field written into it. Text that is no
    /// colour index leaves the colour as it was.
    pub open spec fn written(self, task: TaskView, text: Seq<char>) -> TaskView {
        match self {
            TaskStep::Title => TaskView { title: text, ..task },
            TaskStep::Details => TaskView { body: text, ..task },
            TaskStep::Status => TaskView {
                status: StatusView { label: text, ..task.status },
                ..task
            },
            TaskStep::StatusColor => match color_of(text) {
                Some(color) => TaskView {
                    status: StatusView { color, ..task.status },
                    ..task
                },
                None => task,
            },
        }
    }
}

/// What a prompt is collecting text for.
#[derive(Clone, Copy, Debug, PartialEq, Eq, Structural)]
pub enum InputRequestType {
    NewFolder,
    RenameFolder,
    NewTask { step: TaskStep },
    EditTask { step: TaskStep },
    ConfirmDelete,
}

impl InputRequestType {
    /// The title of the prompt.
    pub open spec fn message(self) -> Seq<char> {
        match self {
            InputRequestType::NewFolder => "Enter the name for the folder"@,
            InputRequestType::RenameFolder => "Enter the new name for the folder"@,
            InputRequestType::NewTask { step } => "New Task: "@ + step.message(),
            InputRequestType::EditTask { step } => "Edit Task: "@ + step.message(),
            InputRequestType::ConfirmDelete => "Are you sure? Y/N"@,
        }
    }

    /// The title of the prompt.
    pub fn to_message(&self) -> (message: String)
        ensures
            message@ == self.message(),
    {
        match self {
            InputRequestType::NewFolder => String::from_str("Enter the name for the folder"),
            InputRequestType::RenameFolder => String::from_str("Enter the new name for the folder"),
            InputRequestType::NewTask { step } => String::from_str("New Task: ").concat(
                step.to_message(),
            ),
            InputRequestType::EditTask { step } => String::from_str("Edit Task: ").concat(
                step.to_message(),
            ),
            InputRequestType::ConfirmDelete => String::from_str("Are you sure? Y/N"),
        }
    }

    /// The state that follows when the text for this request is committed.
    /// Two requests lead on to a second prompt; a new task has no status
    /// prompts, and such a request stays as it is.
    pub open spec fn committed(self) -> InputStatus {
        match self {
            InputRequestType::NewTask { step: TaskStep::Title } => InputStatus::Request(
                InputRequestType::NewTask { step: TaskStep::Details },
            ),
            InputRequestType::NewTask { step: TaskStep::Details } => InputStatus::Empty,
            InputRequestType::NewTask { .. } => InputStatus::Request(self),
            InputRequestType::EditTask { step: TaskStep::Status } => InputStatus::Request(
                InputRequestType::EditTask { step: TaskStep::StatusColor },
            ),
            _ => InputStatus::Empty,
        }
    }

    /// The task being put together, after the text for this request is
    /// committed: the title is kept for the second prompt, and the task is
    /// cleared once it has been stored.
    pub open spec fn pending(self, text: Seq<char>, pending: TaskView) -> TaskView {
        match self {
            InputRequestType::NewTask { step: TaskStep::Title } => TaskView {
                title: text,
                ..pending
            },
            InputRequestType::NewTask { step: TaskStep::Details } => TaskView::blank(),
            _ => pending,
        }
    }

    /// The folder that is shown, after the text for this request is
    /// committed in it. A folder or a task is added only where the listing
    /// has room for it; text that is no yes deletes nothing; and an edit
    /// where the cursor is on no task, or a renaming where it is on no
    /// folder, changes nothing.
    pub open spec fn applied(
        self,
        folder: FolderView,
        text: Seq<char>,
        pending: TaskView,
    ) -> FolderView {
        match self {
            InputRequestType::NewFolder => if folder.has_room() {
                folder.with_folder(FolderView::empty(text))
            } else {
                folder
            },
            InputRequestType::RenameFolder => match folder.selected_folder() {
                Some(selected) => folder.with_selected_folder(
                    FolderView { name: text, ..selected },
                ),
                None => folder,
            },
            InputRequestType::NewTask { step: TaskStep::Details } => if folder.has_room() {
                folder.with_task(TaskView { body: text, ..pending })
            } else {
                folder
            },
            InputRequestType::NewTask { .. } => folder,
            InputRequestType::EditTask { step } => match folder.selected_task() {
                Some(task) => folder.with_selected_task(step.written(task, text)),
                None => folder,
            },
            InputRequestType::ConfirmDelete => if is_yes(text) {
                folder.deleted()
            } else {
                folder
            },
        }
    }
}

/// The modal input state.
#[derive(Clone, Copy, Debug, PartialEq, Eq, Structural)]
pub enum InputStatus {
    /// Keys move about the tree.
    Empty,
    /// The list of commands is shown.
    Controls,
    /// A prompt collects text.
    Request(InputRequestType),
    /// The choice of what to make is shown.
    New,
    /// The choice of what to edit is shown.
    Edit,
}

/// A key as the session reads it.
#[derive(Clone, Copy, Debug, PartialEq, Eq, Structural)]
pub enum Key {
    Char(char),
    Up,
    Down,
    Left,
    Right,
    Tab,
    Enter,
    Esc,
    /// Any key that is none of the above.
    Other,
}

/// What is left for the caller to do after a key.
#[derive(Clone, Copy, Debug, PartialEq, Eq, Structural)]
pub enum Outcome {
    Continue,
    /// Write the tree to the store.
    Save,
    /// End the session.
    Quit,
}

/// The number of view tabs.
pub const TABS: usize = 3;

/// A session as plain values.
pub struct SessionView {
    pub root: FolderView,
    pub path: Seq<Seq<char>>,
    pub tab: nat,
    pub status: InputStatus,
    pub text: Seq<char>,
    pub cursor: nat,
    pub pending: TaskView,
}

impl SessionView {
    /// The session that opens on `root`.
    pub open spec fn start(root: FolderView) -> SessionView {
        SessionView {
            root,
            path: Seq::empty(),
            tab: 0,
            status: InputStatus::Empty,
            text: Seq::empty(),
            cursor: 0,
            pending: TaskView::blank(),
        }
    }

    /// The tree is well formed, the path leads to a folder in it, and the
    /// tab is one of the tabs.
    pub open spec fn wf(self) -> bool {
        &&& self.root.wf()
        &&& self.root.resolve(self.path) is Ok
        &&& self.tab < TABS
    }

    /// The folder that is shown.
    pub open spec fn current(self) -> FolderView {
        self.root.resolve(self.path)->Ok_0
    }

    /// The session with `folder` in place of the folder that is shown.
    pub open spec fn with_current(self, folder: FolderView) -> SessionView {
        SessionView { root: self.root.replace_at(self.path, folder), ..self }
    }

    /// The session in the input state `status`.
    pub open spec fn with_status(self, status: InputStatus) -> SessionView {
        SessionView { status, ..self }
    }

    /// A key while no overlay is open: the arrows move the cursor and enter
    /// or leave a subfolder, tab goes to the next tab, space opens the list
    /// of commands.
    pub open spec fn on_idle(self, key: Key) -> SessionView {
        match key {
            Key::Char(c) => if c == ' ' {
                self.with_status(InputStatus::Controls)
            } else {
                self
            },
            Key::Down => self.with_current(self.current().moved(1)),
            Key::Up => self.with_current(self.current().moved(-1)),
            Key::Right => match self.current().selected_folder() {
                Some(folder) => SessionView { path: self.path.push(folder.name), ..self },
                None => self,
            },
            Key::Left => if self.path.len() > 0 {
                SessionView { path: self.path.drop_last(), ..self }
            } else {
                self
            },
            Key::Tab => SessionView { tab: (self.tab + 1) % (TABS as nat), ..self },
            _ => self,
        }
    }

    /// A key while the list of commands is shown.
    pub open spec fn on_controls(self, key: Key) -> SessionView {
        match key {
            Key::Char(c) => if c == 'q' {
                self
            } else if c == 'n' {
                self.with_status(InputStatus::New)
            } else if c == 'e' {
                if self.current().selected_folder() is Some {
                    self.with_status(InputStatus::Request(InputRequestType::RenameFolder))
                } else {
                    self.with_status(InputStatus::Edit)
                }
            } else if c == 'd' {
                self.with_status(InputStatus::Request(InputRequestType::ConfirmDelete))
            } else {
                self.with_status(InputStatus::Empty)
            },
            _ => self.with_status(InputStatus::Empty),
        }
    }

    /// A key while the choice of what to make is shown.
    pub open spec fn on_new(self, key: Key) -> SessionView {
        match key {
            Key::Char(c) => if c == 'f' {
                self.with_status(InputStatus::Request(InputRequestType::NewFolder))
            } else if c == 't' {
                self.with_status(
                    InputStatus::Request(InputRequestType::NewTask { step: TaskStep::Title }),
                )
            } else {
                self.with_status(InputStatus::Empty)
            },
            _ => self.with_status(InputStatus::Empty),
        }
    }

    /// A key while the choice of what to edit is shown.
    pub open spec fn on_edit(self, key: Key) -> SessionView {
        match key {
            Key::Char(c) => if c == 't' {
                self.with_status(
                    InputStatus::Request(InputRequestType::EditTask { step: TaskStep::Title }),
                )
            } else if c == 'd' {
                self.with_status(
                    InputStatus::Request(InputRequestType::EditTask { step: TaskStep::Details }),
                )
            } else if c == 's' {
                self.with_status(
                    InputStatus::Request(InputRequestType::EditTask { step: TaskStep::Status }),
                )
            } else {
                self.with_status(InputStatus::Empty)
            },
            _ => self.with_status(InputStatus::Empty),
        }
    }

    /// `text` committed for `request`: it is applied in the folder that is
    /// shown, the state that follows is entered, and the buffer is emptied.
    pub open spec fn on_commit(self, request: InputRequestType, text: Seq<char>) -> SessionView {
        SessionView {
            root: self.root.replace_at(
                self.path,
                request.applied(self.current(), text, self.pending),
            ),
            status: request.committed(),
            pending: request.pending(text, self.pending),
            text: Seq::empty(),
            cursor: 0,
            ..self
        }
    }

    /// The prompt given up: nothing is changed but the prompt's own state.
    pub open spec fn on_abort(self) -> SessionView {
        SessionView {
            status: InputStatus::Empty,
            pending: TaskView::blank(),
            text: Seq::empty(),
            cursor: 0,
            ..self
        }
    }

    /// An edit of the text in the buffer.
    pub open spec fn on_edit_text(self, edit: Option<Edit>) -> SessionView {
        match edit {
            Some(edit) => SessionView {
                text: edited(self.text, self.cursor, edit).0,
                cursor: edited(self.text, self.cursor, edit).1,
                ..self
            },
            None => self,
        }
    }

    /// A key while a prompt for `request` collects text: escape gives up,
    /// enter commits, and any other key is left to the buffer, which takes
    /// it as the edit it stands for.
    pub open spec fn on_request(
        self,
        request: InputRequestType,
        key: Key,
        edit: Option<Edit>,
    ) -> SessionView {
        match key {
            Key::Esc => self.on_abort(),
            Key::Enter => self.on_commit(request, self.text),
            _ => self.on_edit_text(edit),
        }
    }

    /// The session after a key.
    pub open spec fn on_key(self, key: Key, edit: Option<Edit>) -> SessionView {
        match self.status {
            InputStatus::Empty => self.on_idle(key),
            InputStatus::Controls => self.on_controls(key),
            InputStatus::New => self.on_new(key),
            InputStatus::Edit => self.on_edit(key),
            InputStatus::Request(request) => self.on_request(request, key, edit),
        }
    }

    /// What a key leaves for the caller to do: `w` and `q` in the list of
    /// commands ask for a save and for the end of the session.
    pub open spec fn outcome(self, key: Key) -> Outcome {
        if self.status == InputStatus::Controls && key == Key::Char('w') {
            Outcome::Save
        } else if self.status == InputStatus::Controls && key == Key::Char('q') {
            Outcome::Quit
        } else {
            Outcome::Continue
        }
    }
}

/// A tree, the path to the folder in it that is shown, and the input state.
pub struct Session {
    folder: Folder,
    selected: Vec<String>,
    selected_tab: usize,
    input_status: InputStatus,
    input: Input,
    temp_task: Task,
}

impl View for Session {
    type V = SessionView;

    closed spec fn view(&self) -> SessionView {
        SessionView {
            root: self.folder@,
            path: path_view(self.selected@),
            tab: self.selected_tab as nat,
            status: self.input_status,
            text: buffer_text(self.input),
            cursor: buffer_cursor(self.input),
            pending: self.temp_task@,
        }
    }
}

/// A copy of `selected` as the queue of names that a lookup consumes.
fn path_queue(selected: &Vec<String>) -> (path: VecDeque<String>)
    ensures
        path@ == selected@,
{
    let mut path: VecDeque<String> = VecDeque::new();
    let mut at: usize = 0;
    while at < selected.len()
        invariant
            at <= selected@.len(),
            path@ == selected@.take(at as int),
        decreases selected@.len() - at,
    {
        path.push_back(selected[at].clone());
        proof {
            assert(selected@.take(at + 1) =~= selected@.take(at as int).push(selected@[at as int]));
        }
        at += 1;
    }
    proof {
        assert(selected@.take(at as int) =~= selected@);
    }
    path
}

/// The folder that `selected` leads to in `folder`.
fn current_folder<'a>(folder: &'a mut Folder, selected: &Vec<String>) -> (current: &'a mut Folder)
    requires
        old(folder)@.resolve(path_view(selected@)) is Ok,
    ensures
        current@ == old(folder)@.resolve(path_view(selected@))->Ok_0,
        final(folder)@ == old(folder)@.replace_at(path_view(selected@), final(current)@),
{
    match folder.get_folder(path_queue(selected)) {
        Ok(current) => current,
        Err(_) => unreached(),
    }
}

/// The state that follows when the text for `request` is committed.
fn status_after(request: InputRequestType) -> (status: InputStatus)
    ensures
        status == request.committed(),
{
    match request {
        InputRequestType::NewTask { step } => {
            match step {
                TaskStep::Title => InputStatus::Request(
                    InputRequestType::NewTask { step: TaskStep::Details },
                ),
                TaskStep::Details => InputStatus::Empty,
                _ => InputStatus::Request(request),
            }
        },
        InputRequestType::EditTask { step } => {
            match step {
                TaskStep::Status => InputStatus::Request(
                    InputRequestType::EditTask { step: TaskStep::StatusColor },
                ),
                _ => InputStatus::Empty,
            }
        },
        _ => InputStatus::Empty,
    }
}

/// Commits `value` for `request` in the folder that is shown. `pending` is
/// the task being put together, with its title.
fn apply(current: &mut Folder, request: InputRequestType, value: String, pending: &Task)
    requires
        old(current)@.wf(),
    ensures
        final(current)@ == request.applied(old(current)@, value@, pending@),
        final(current)@.wf(),
        final(current)@.name == old(current)@.name,
{
    match request {
        InputRequestType::NewFolder => {
            if current.len() < usize::MAX {
                current.new_folder(value);
            }
        },
        InputRequestType::RenameFolder => {
            match current.get_selected_folder() {
                Some(folder) => {
                    folder.set_name(value);
                },
                None => {},
            }
        },
        InputRequestType::NewTask { step } => {
            match step {
                TaskStep::Details => {
                    if current.len() < usize::MAX {
                        current.new_task(
                            Task {
                                title: pending.title.clone(),
                                task: value,
                                status: pending.status.clone(),
                            },
                        );
                    }
                },
                _ => {},
            }
        },
        InputRequestType::EditTask { step } => {
            match current.get_selected_task() {
                Some(task) => {
                    match step {
                        TaskStep::Title => {
                            task.title = value;
                        },
                        TaskStep::Details => {
                            task.task = value;
                        },
                        TaskStep::Status => {
                            task.status.status = value;
                        },
                        TaskStep::StatusColor => {
                            match parse_color(value.as_str()) {
                                Some(color) => {
                                    task.status.color = color;
                                },
                                None => {},
                            }
                        },
                    }
                },
                None => {},
            }
        },
        InputRequestType::ConfirmDelete => {
            if confirms(value.as_str()) {
                current.delete_selected();
            }
        },
    }
}

impl Session {
    /// A session that opens on the root of `folder`, with no overlay open.
    pub fn new(folder: Folder) -> (session: Session)
        requires
            folder@.wf(),
        ensures
            session@ == SessionView::start(folder@),
            session@.wf(),
    {
        let session = Session {
            folder,
            selected: Vec::new(),
            selected_tab: 0,
            input_status: InputStatus::Empty,
            input: Input::new(String::new()),
            temp_task: Task::default(),
        };
        proof {
            assert(path_view(session.selected@) =~= Seq::<Seq<char>>::empty());
        }
        session
    }

    /// Whether the tree is well formed, the path leads to a folder in it and
    /// the tab is one of the tabs.
    pub fn is_well_formed(&self) -> (ok: bool)
        ensures
            ok == self@.wf(),
    {
        self.folder.is_well_formed() && self.folder.find_folder(&self.selected).is_some()
            && self.selected_tab < TABS
    }

    /// The modal input state.
    pub fn status(&self) -> (status: InputStatus)
        ensures
            status == self@.status,
    {
        self.input_status
    }

    /// The tab that is shown, counted from 0.
    pub fn tab(&self) -> (tab: usize)
        ensures
            tab == self@.tab,
    {
        self.selected_tab
    }

    /// The names that lead from the root to the folder that is shown.
    pub fn path(&self) -> (path: &Vec<String>)
        ensures
            path_view(path@) == self@.path,
    {
        &self.selected
    }

    /// The whole tree.
    pub fn root(&self) -> (root: &Folder)
        ensures
            root@ == self@.root,
    {
        &self.folder
    }

    /// The folder that is shown.
    pub fn current_folder(&self) -> (current: &Folder)
        requires
            self@.wf(),
        ensures
            current@ == self@.current(),
    {
        match self.folder.find_folder(&self.selected) {
            Some(current) => current,
            None => unreached(),
        }
    }

    /// The text in the prompt's buffer.
    pub fn buffer(&self) -> (text: &str)
        ensures
            text@ == self@.text,
    {
        self.input.value()
    }

    /// The task that a new-task prompt is putting together.
    pub fn pending(&self) -> (task: &Task)
        ensures
            task@ == self@.pending,
    {
        &self.temp_task
    }

    /// A key while no overlay is open.
    fn navigate(&mut self, key: Key)
        requires
            old(self)@.wf(),
        ensures
            final(self)@ == old(self)@.on_idle(key),
            final(self)@.wf(),
    {
        let ghost before = self@;
        proof {
            before.root.lemma_resolve_wf(before.path);
        }
        match key {
            Key::Char(c) => {
                if c == ' ' {
                    self.input_status = InputStatus::Controls;
                }
            },
            Key::Down => {
                let current = current_folder(&mut self.folder, &self.selected);
                current.adjust_selected(1);
                proof {
                    before.root.lemma_replace_at(before.path, before.current().moved(1));
                }
            },
            Key::Up => {
                let current = current_folder(&mut self.folder, &self.selected);
                current.adjust_selected(-1);
                proof {
                    before.root.lemma_replace_at(before.path, before.current().moved(-1));
                }
            },
            Key::Right => {
                let current = current_folder(&mut self.folder, &self.selected);
                let ghost shown = current@;
                let entered: Option<String> = match current.get_selected_folder() {
                    Some(folder) => Some(folder.name().clone()),
                    None => None,
                };
                proof {
                    if shown.selected < shown.folders.len() {
                        assert(shown.folders.update(
                            shown.selected as int,
                            shown.folders[shown.selected as int],
                        ) =~= shown.folders);
                    }
                    before.root.lemma_replace_at(before.path, shown);
                    assert(before.root.replace_at(before.path, shown) == before.root) by {
                        before.root.lemma_replace_same(before.path);
                    }
                }
                match entered {
                    Some(name) => {
                        proof {
                            shown.lemma_some_child_named(name@, shown.selected as int);
                            before.root.lemma_resolve_push(before.path, name@);
                            assert(path_view(self.selected@.push(name)) =~= before.path.push(
                                name@,
                            ));
                        }
                        self.selected.push(name);
                    },
                    None => {},
                }
            },
            Key::Left => {
                proof {
                    if before.path.len() > 0 {
                        before.root.lemma_resolve_drop_last(before.path);
                        assert(path_view(self.selected@.drop_last()) =~= before.path.drop_last());
                    }
                }
                self.selected.pop();
                proof {
                    if before.path.len() > 0 {
                        assert(self.selected@ =~= old(self).selected@.drop_last());
                    }
                }
            },
            Key::Tab => {
                self.selected_tab = (self.selected_tab + 1) % TABS;
            },
            _ => {},
        }
    }

    /// A key while the list of commands is shown.
    fn choose_command(&mut self, key: Key) -> (outcome: Outcome)
        requires
            old(self)@.wf(),
            old(self)@.status == InputStatus::Controls,
        ensures
            final(self)@ == old(self)@.on_controls(key),
            outcome == old(self)@.outcome(key),
            final(self)@.wf(),
    {
        let ghost before = self@;
        match key {
            Key::Char(c) => {
                if c == 'q' {
                    return Outcome::Quit;
                } else if c == 'n' {
                    self.input_status = InputStatus::New;
                } else if c == 'e' {
                    let current = current_folder(&mut self.folder, &self.selected);
                    let ghost shown = current@;
                    let on_folder: bool = current.get_selected_folder().is_some();
                    proof {
                        if shown.selected < shown.folders.len() {
                            assert(shown.folders.update(
                                shown.selected as int,
                                shown.folders[shown.selected as int],
                            ) =~= shown.folders);
                        }
                        before.root.lemma_replace_same(before.path);
                    }
                    if on_folder {
                        self.input_status = InputStatus::Request(InputRequestType::RenameFolder);
                    } else {
                        self.input_status = InputStatus::Edit;
                    }
                } else if c == 'w' {
                    self.input_status = InputStatus::Empty;
                    return Outcome::Save;
                } else if c == 'd' {
                    self.input_status = InputStatus::Request(InputRequestType::ConfirmDelete);
                } else {
                    self.input_status = InputStatus::Empty;
                }
            },
            _ => {
                self.input_status = InputStatus::Empty;
            },
        }
        Outcome::Continue
    }

    /// A key while the choice of what to make is shown.
    fn choose_new(&mut self, key: Key)
        ensures
            final(self)@ == old(self)@.on_new(key),
    {
        self.input_status = match key {
            Key::Char(c) => {
                if c == 'f' {
                    InputStatus::Request(InputRequestType::NewFolder)
                } else if c == 't' {
                    InputStatus::Request(InputRequestType::NewTask { step: TaskStep::Title })
                } else {
                    InputStatus::Empty
                }
            },
            _ => InputStatus::Empty,
        };
    }

    /// A key while the choice of what to edit is shown.
    fn choose_edit(&mut self, key: Key)
        ensures
            final(self)@ == old(self)@.on_edit(key),
    {
        self.input_status = match key {
            Key::Char(c) => {
                if c == 't' {
                    InputStatus::Request(InputRequestType::EditTask { step: TaskStep::Title })
                } else if c == 'd' {
                    InputStatus::Request(InputRequestType::EditTask { step: TaskStep::Details })
                } else if c == 's' {
                    InputStatus::Request(InputRequestType::EditTask { step: TaskStep::Status })
                } else {
                    InputStatus::Empty
                }
            },
            _ => InputStatus::Empty,
        };
    }

    /// Commits `value` as the text for `request`, as enter does with the
    /// text in the buffer.
    pub fn commit(&mut self, request: InputRequestType, value: String)
        requires
            old(self)@.wf(),
        ensures
            final(self)@ == old(self)@.on_commit(request, value@),
            final(self)@.wf(),
    {
        let ghost before = self@;
        proof {
            before.root.lemma_resolve_wf(before.path);
            before.root.lemma_replace_at(
                before.path,
                request.applied(before.current(), value@, before.pending),
            );
        }
        match request {
            InputRequestType::NewTask { step: TaskStep::Title } => {
                self.temp_task.title = value;
                proof {
                    before.root.lemma_replace_same(before.path);
                }
            },
            InputRequestType::NewTask { step: TaskStep::Details } => {
                let current = current_folder(&mut self.folder, &self.selected);
                apply(current, request, value, &self.temp_task);
                self.temp_task = Task::default();
            },
            _ => {
                let current = current_folder(&mut self.folder, &self.selected);
                apply(current, request, value, &self.temp_task);
            },
        }
        self.input_status = status_after(request);
        self.input = Input::new(String::new());
    }

    /// Escape in a prompt: the buffer and the task being put together are
    /// cleared, and nothing else is changed.
    fn abort(&mut self)
        ensures
            final(self)@ == old(self)@.on_abort(),
    {
        self.input = Input::new(String::new());
        self.temp_task = Task::default();
        self.input_status = InputStatus::Empty;
    }

    /// Any other key in a prompt: the buffer takes the edit it stands for.
    fn edit_text(&mut self, edit: Option<Edit>)
        ensures
            final(self)@ == old(self)@.on_edit_text(edit),
    {
        match edit {
            Some(edit) => {
                apply_edit(&mut self.input, edit);
            },
            None => {},
        }
    }

    /// Takes one key. `edit` is the change of text that the key stands for,
    /// if it stands for one; it is used only while a prompt is open.
    pub fn handle_key(&mut self, key: Key, edit: Option<Edit>) -> (outcome: Outcome)
        requires
            old(self)@.wf(),
        ensures
            final(self)@ == old(self)@.on_key(key, edit),
            outcome == old(self)@.outcome(key),
            final(self)@.wf(),
    {
        match self.input_status {
            InputStatus::Empty => {
                self.navigate(key);
                Outcome::Continue
            },
            InputStatus::Controls => self.choose_command(key),
            InputStatus::New => {
                self.choose_new(key);
                Outcome::Continue
            },
            InputStatus::Edit => {
                self.choose_edit(key);
                Outcome::Continue
            },
            InputStatus::Request(request) => {
                match key {
                    Key::Esc => self.abort(),
                    Key::Enter => {
                        let value: String = self.input.value().to_owned();
                        self.commit(request, value)
                    },
                    _ => self.edit_text(edit),
                }
                Outcome::Continue
            },
        }
    }
}

} // verus!
