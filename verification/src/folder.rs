//! The folder tree: named folders that own subfolders and tasks, each with a
//! selection cursor over its unified listing (subfolders first, then tasks).

use crate::task::{Task, TaskView};
use std::collections::VecDeque;
use vstd::prelude::*;
use vstd::string::StringExecFns;

verus! {

/// A folder as a mathematical tree.
pub struct FolderView {
    pub name: Seq<char>,
    pub tasks: Seq<TaskView>,
    pub folders: Seq<FolderView>,
    pub selected: nat,
}

/// One row of a folder's unified listing.
pub struct EntryView {
    pub label: Seq<char>,
    pub is_folder: bool,
    pub selected: bool,
}

impl FolderView {
    /// The folder called `name` that holds nothing.
    pub open spec fn empty(name: Seq<char>) -> FolderView {
        FolderView { name, tasks: Seq::empty(), folders: Seq::empty(), selected: 0 }
    }

    /// The length of the unified listing.
    pub open spec fn total(self) -> nat {
        self.folders.len() + self.tasks.len()
    }

    /// The largest value the cursor may take: `total - 1`, or 0 in an empty folder.
    pub open spec fn max_cursor(self) -> nat {
        if self.total() == 0 {
            0
        } else {
            (self.total() - 1) as nat
        }
    }

    /// The cursor is on an entry of the listing, or at 0 in an empty folder.
    pub open spec fn cursor_in_bounds(self) -> bool {
        self.selected <= self.max_cursor()
    }

    /// Every cursor in the tree is within its folder's listing, and every
    /// listing can be indexed by a `usize`.
    pub open spec fn wf(self) -> bool
        decreases self,
    {
        &&& self.cursor_in_bounds()
        &&& self.total() <= usize::MAX
        &&& forall|i: int| 0 <= i < self.folders.len() ==> (#[trigger] self.folders[i]).wf()
    }

    /// `task` appended to the tasks.
    pub open spec fn with_task(self, task: TaskView) -> FolderView {
        FolderView { tasks: self.tasks.push(task), ..self }
    }

    /// `folder` appended to the subfolders.
    pub open spec fn with_folder(self, folder: FolderView) -> FolderView {
        FolderView { folders: self.folders.push(folder), ..self }
    }

    /// The cursor put at `cursor`.
    pub open spec fn with_cursor(self, cursor: nat) -> FolderView {
        FolderView { selected: cursor, ..self }
    }

    /// The cursor moved by `delta` and clamped to `[0, max_cursor]`.
    pub open spec fn moved(self, delta: int) -> FolderView {
        let target = self.selected + delta;
        let cursor = if target < 0 {
            0
        } else if target > self.max_cursor() {
            self.max_cursor()
        } else {
            target as nat
        };
        self.with_cursor(cursor)
    }

    /// The subfolder under the cursor.
    pub open spec fn selected_folder(self) -> Option<FolderView> {
        if self.selected < self.folders.len() {
            Some(self.folders[self.selected as int])
        } else {
            None
        }
    }

    /// The task under the cursor.
    pub open spec fn selected_task(self) -> Option<TaskView> {
        if self.selected >= self.folders.len() && self.selected - self.folders.len()
            < self.tasks.len() {
            Some(self.tasks[self.selected - self.folders.len()])
        } else {
            None
        }
    }

    /// Whether one more entry would still leave every entry within reach of
    /// a `usize` cursor.
    pub open spec fn has_room(self) -> bool {
        self.total() < usize::MAX
    }

    /// The subfolder under the cursor replaced by `folder`, if there is one.
    pub open spec fn with_selected_folder(self, folder: FolderView) -> FolderView {
        if self.selected < self.folders.len() {
            FolderView { folders: self.folders.update(self.selected as int, folder), ..self }
        } else {
            self
        }
    }

    /// The task under the cursor replaced by `task`, if there is one.
    pub open spec fn with_selected_task(self, task: TaskView) -> FolderView {
        if self.selected_task() is Some {
            FolderView {
                tasks: self.tasks.update(self.selected - self.folders.len(), task),
                ..self
            }
        } else {
            self
        }
    }

    /// The cursor one step back, but not below 0 nor beyond the listing.
    pub open spec fn cursor_after_removal(self) -> nat {
        let back = if self.selected > 0 {
            (self.selected - 1) as nat
        } else {
            0
        };
        if back > self.max_cursor() {
            self.max_cursor()
        } else {
            back
        }
    }

    /// The entry under the cursor removed, a subfolder with all it holds.
    pub open spec fn deleted(self) -> FolderView {
        if self.selected < self.folders.len() {
            let rest = FolderView { folders: self.folders.remove(self.selected as int), ..self };
            rest.with_cursor(rest.cursor_after_removal())
        } else if self.selected - self.folders.len() < self.tasks.len() {
            let rest = FolderView {
                tasks: self.tasks.remove(self.selected - self.folders.len()),
                ..self
            };
            rest.with_cursor(rest.cursor_after_removal())
        } else {
            self
        }
    }

    /// Row `i` of the unified listing.
    pub open spec fn entry(self, i: int) -> EntryView {
        if i < self.folders.len() {
            EntryView { label: self.folders[i].name, is_folder: true, selected: i == self.selected }
        } else {
            EntryView {
                label: self.tasks[i - self.folders.len()].title,
                is_folder: false,
                selected: i == self.selected,
            }
        }
    }

    /// Subfolder `i` is called `name` and no subfolder before it is.
    pub open spec fn is_first_named(self, name: Seq<char>, i: int) -> bool {
        &&& 0 <= i < self.folders.len()
        &&& self.folders[i].name == name
        &&& forall|j: int| 0 <= j < i ==> (#[trigger] self.folders[j]).name != name
    }

    /// The index of the first subfolder called `name`. Names need not be
    /// unique among siblings: the first match wins.
    pub open spec fn child_named(self, name: Seq<char>) -> Option<int> {
        if exists|i: int| self.is_first_named(name, i) {
            Some(choose|i: int| self.is_first_named(name, i))
        } else {
            None
        }
    }

    /// The folder reached by descending one name of `path` at a time, or the
    /// first name that has no match.
    pub open spec fn resolve(self, path: Seq<Seq<char>>) -> Result<FolderView, Seq<char>>
        decreases path.len(),
    {
        if path.len() == 0 {
            Ok(self)
        } else {
            match self.child_named(path[0]) {
                Some(i) => self.folders[i].resolve(path.drop_first()),
                None => Err(path[0]),
            }
        }
    }

    /// This tree with the folder that `path` reaches replaced by `folder`.
    pub open spec fn replace_at(self, path: Seq<Seq<char>>, folder: FolderView) -> FolderView
        decreases path.len(),
    {
        if path.len() == 0 {
            folder
        } else {
            match self.child_named(path[0]) {
                Some(i) => FolderView {
                    folders: self.folders.update(
                        i,
                        self.folders[i].replace_at(path.drop_first(), folder),
                    ),
                    ..self
                },
                None => self,
            }
        }
    }

    /// The first subfolder called `name` is found by its two properties.
    pub proof fn lemma_child_named(self, name: Seq<char>, i: int)
        requires
            self.is_first_named(name, i),
        ensures
            self.child_named(name) == Some(i),
    {
        let k = choose|k: int| self.is_first_named(name, k);
        assert(self.is_first_named(name, k));
        if k < i {
            assert(self.folders[k].name != name);
        }
        if i < k {
            assert(self.folders[i].name != name);
        }
    }

    /// Where some subfolder is called `name`, a first one is found, at or
    /// before it.
    pub proof fn lemma_some_child_named(self, name: Seq<char>, i: int)
        requires
            0 <= i < self.folders.len(),
            self.folders[i].name == name,
        ensures
            self.child_named(name) is Some,
            self.is_first_named(name, self.child_named(name)->Some_0),
        decreases i,
    {
        if exists|j: int| 0 <= j < i && (#[trigger] self.folders[j]).name == name {
            let j = choose|j: int| 0 <= j < i && (#[trigger] self.folders[j]).name == name;
            self.lemma_some_child_named(name, j);
        } else {
            assert(self.is_first_named(name, i));
            self.lemma_child_named(name, i);
        }
    }

    /// A subfolder that is found is one of the subfolders and bears the name.
    pub proof fn lemma_child_named_is_first(self, name: Seq<char>)
        requires
            self.child_named(name) is Some,
        ensures
            self.is_first_named(name, self.child_named(name)->Some_0),
    {
    }

    /// Which subfolder a name finds depends on the subfolders' names alone.
    pub proof fn lemma_child_named_by_names(self, other: FolderView, name: Seq<char>)
        requires
            self.folders.len() == other.folders.len(),
            forall|j: int|
                0 <= j < self.folders.len() ==> (#[trigger] self.folders[j]).name
                    == other.folders[j].name,
        ensures
            self.child_named(name) == other.child_named(name),
    {
        if self.child_named(name) is Some {
            let i = self.child_named(name)->Some_0;
            assert(self.is_first_named(name, i));
            assert forall|j: int| 0 <= j < i implies (#[trigger] other.folders[j]).name != name by {
                assert(self.folders[j].name != name);
            }
            assert(other.is_first_named(name, i));
            other.lemma_child_named(name, i);
        } else {
            if other.child_named(name) is Some {
                let i = other.child_named(name)->Some_0;
                assert(other.is_first_named(name, i));
                assert(self.folders[i].name == name);
                assert forall|j: int| 0 <= j < i implies (#[trigger] self.folders[j]).name
                    != name by {
                    assert(other.folders[j].name != name);
                }
                assert(self.is_first_named(name, i));
                self.lemma_child_named(name, i);
            }
        }
    }

    /// A folder reached in a well-formed tree is well formed.
    pub proof fn lemma_resolve_wf(self, path: Seq<Seq<char>>)
        requires
            self.wf(),
            self.resolve(path) is Ok,
        ensures
            self.resolve(path)->Ok_0.wf(),
        decreases path.len(),
    {
        if path.len() > 0 {
            let i = self.child_named(path[0])->Some_0;
            self.lemma_child_named_is_first(path[0]);
            self.folders[i].lemma_resolve_wf(path.drop_first());
        }
    }

    /// Replacing the folder that a path reaches by one of the same name puts
    /// that folder where the path leads, and keeps the tree well formed if
    /// the new folder is.
    pub proof fn lemma_replace_at(self, path: Seq<Seq<char>>, folder: FolderView)
        requires
            self.resolve(path) is Ok,
            self.resolve(path)->Ok_0.name == folder.name,
        ensures
            self.replace_at(path, folder).name == self.name,
            self.replace_at(path, folder).resolve(path) == Ok::<FolderView, Seq<char>>(folder),
            self.wf() && folder.wf() ==> self.replace_at(path, folder).wf(),
        decreases path.len(),
    {
        if path.len() > 0 {
            let i = self.child_named(path[0])->Some_0;
            self.lemma_child_named_is_first(path[0]);
            let rest = path.drop_first();
            let child = self.folders[i].replace_at(rest, folder);
            self.folders[i].lemma_replace_at(rest, folder);
            let after = self.replace_at(path, folder);
            assert(after == (FolderView { folders: self.folders.update(i, child), ..self }));
            self.lemma_child_named_by_names(after, path[0]);
            assert(after.resolve(path) == after.folders[i].resolve(rest));
            if self.wf() && folder.wf() {
                assert forall|j: int| 0 <= j < after.folders.len() implies
                    (#[trigger] after.folders[j]).wf() by {
                    if j != i {
                        assert(self.folders[j].wf());
                    }
                }
            }
        }
    }

    /// Putting back the folder that a path reaches changes nothing.
    pub proof fn lemma_replace_same(self, path: Seq<Seq<char>>)
        requires
            self.resolve(path) is Ok,
        ensures
            self.replace_at(path, self.resolve(path)->Ok_0) == self,
        decreases path.len(),
    {
        if path.len() > 0 {
            let i = self.child_named(path[0])->Some_0;
            self.lemma_child_named_is_first(path[0]);
            self.folders[i].lemma_replace_same(path.drop_first());
            assert(self.folders.update(i, self.folders[i]) =~= self.folders);
        }
    }

    /// A path that leads somewhere can be followed one name further, into a
    /// subfolder of the folder it leads to.
    pub proof fn lemma_resolve_push(self, path: Seq<Seq<char>>, name: Seq<char>)
        requires
            self.resolve(path) is Ok,
            self.resolve(path)->Ok_0.child_named(name) is Some,
        ensures
            self.resolve(path.push(name)) == Ok::<FolderView, Seq<char>>(
                self.resolve(path)->Ok_0.folders[self.resolve(path)->Ok_0.child_named(
                    name,
                )->Some_0],
            ),
        decreases path.len(),
    {
        let longer = path.push(name);
        if path.len() == 0 {
            assert(longer.drop_first() =~= Seq::<Seq<char>>::empty());
            let i = self.child_named(name)->Some_0;
            assert(self.resolve(longer) == self.folders[i].resolve(longer.drop_first()));
        } else {
            let i = self.child_named(path[0])->Some_0;
            assert(longer.drop_first() =~= path.drop_first().push(name));
            self.folders[i].lemma_resolve_push(path.drop_first(), name);
            assert(self.resolve(longer) == self.folders[i].resolve(longer.drop_first()));
        }
    }

    /// A path that leads somewhere leads somewhere without its last name.
    pub proof fn lemma_resolve_drop_last(self, path: Seq<Seq<char>>)
        requires
            self.resolve(path) is Ok,
            path.len() > 0,
        ensures
            self.resolve(path.drop_last()) is Ok,
        decreases path.len(),
    {
        let shorter = path.drop_last();
        if path.len() > 1 {
            let i = self.child_named(path[0])->Some_0;
            assert(shorter.drop_first() =~= path.drop_first().drop_last());
            self.folders[i].lemma_resolve_drop_last(path.drop_first());
            assert(self.resolve(shorter) == self.folders[i].resolve(shorter.drop_first()));
        }
    }

    /// Where no subfolder is called `name`, none is found.
    pub proof fn lemma_no_child_named(self, name: Seq<char>)
        requires
            forall|j: int|
                0 <= j < self.folders.len() ==> (#[trigger] self.folders[j]).name != name,
        ensures
            self.child_named(name) is None,
    {
    }
}

impl FolderView {
    /// The cursor after a sequence of moves, made one after the other.
    pub open spec fn moved_all(self, deltas: Seq<int>) -> FolderView
        decreases deltas.len(),
    {
        if deltas.len() == 0 {
            self
        } else {
            self.moved_all(deltas.drop_last()).moved(deltas.last())
        }
    }

    /// Whatever moves are made, and in whatever order, the cursor stays
    /// within the listing: below `total` where there are entries, and at 0
    /// in an empty folder. Nothing but the cursor changes.
    pub proof fn lemma_moves_keep_cursor_in_bounds(self, deltas: Seq<int>)
        requires
            self.cursor_in_bounds(),
        ensures
            self.moved_all(deltas) == self.with_cursor(self.moved_all(deltas).selected),
            self.total() > 0 ==> self.moved_all(deltas).selected < self.total(),
            self.total() == 0 ==> self.moved_all(deltas).selected == 0,
        decreases deltas.len(),
    {
        if deltas.len() > 0 {
            self.lemma_moves_keep_cursor_in_bounds(deltas.drop_last());
        }
    }

    /// The cursor is never on a subfolder and on a task at once, and in a
    /// folder with entries it is on exactly one of the two.
    pub proof fn lemma_selection_is_partition(self)
        ensures
            !(self.selected_folder() is Some && self.selected_task() is Some),
            self.cursor_in_bounds() && self.total() > 0 ==> (self.selected_folder() is Some)
                != (self.selected_task() is Some),
            self.total() == 0 ==> self.selected_folder() is None && self.selected_task() is None,
    {
    }

    /// A folder that is added stands last among the subfolders, the others
    /// keep their places, and the cursor finds it at the index of the last
    /// subfolder in the unified listing.
    pub proof fn lemma_added_folder_is_last(self, folder: FolderView)
        ensures
            self.with_folder(folder).folders.drop_last() == self.folders,
            self.with_folder(folder).folders.last() == folder,
            self.with_folder(folder).tasks == self.tasks,
            self.with_folder(folder).moved(
                self.folders.len() - self.selected,
            ).selected_folder() == Some(folder),
    {
        assert(self.with_folder(folder).folders.drop_last() =~= self.folders);
    }

    /// A task that is added stands last among the tasks, the others keep
    /// their places, and the cursor finds it at the last index of the
    /// unified listing.
    pub proof fn lemma_added_task_is_last(self, task: TaskView)
        ensures
            self.with_task(task).tasks.drop_last() == self.tasks,
            self.with_task(task).tasks.last() == task,
            self.with_task(task).folders == self.folders,
            self.with_task(task).moved(self.total() - self.selected).selected_task() == Some(
                task,
            ),
    {
        assert(self.with_task(task).tasks.drop_last() =~= self.tasks);
    }

    /// Adding a well-formed folder where there is room keeps a well-formed
    /// folder well formed.
    pub proof fn lemma_with_folder_wf(self, folder: FolderView)
        requires
            self.wf(),
            self.has_room(),
            folder.wf(),
        ensures
            self.with_folder(folder).wf(),
    {
        let after = self.with_folder(folder);
        assert forall|i: int| 0 <= i < after.folders.len() implies
            (#[trigger] after.folders[i]).wf() by {
            if i < self.folders.len() {
                assert(self.folders[i].wf());
            }
        }
    }

    /// Adding a task where there is room keeps a well-formed folder well
    /// formed.
    pub proof fn lemma_with_task_wf(self, task: TaskView)
        requires
            self.wf(),
            self.has_room(),
        ensures
            self.with_task(task).wf(),
    {
        let after = self.with_task(task);
        assert forall|i: int| 0 <= i < after.folders.len() implies
            (#[trigger] after.folders[i]).wf() by {
            assert(self.folders[i].wf());
        }
    }

    /// The subfolder under the cursor is well formed in a well-formed
    /// folder, and putting a well-formed folder in its place keeps the
    /// folder well formed.
    pub proof fn lemma_with_selected_folder_wf(self, folder: FolderView)
        requires
            self.wf(),
        ensures
            self.selected_folder() is Some ==> self.selected_folder()->Some_0.wf(),
            folder.wf() ==> self.with_selected_folder(folder).wf(),
    {
        if self.selected < self.folders.len() {
            assert(self.folders[self.selected as int].wf());
        }
        if folder.wf() {
            let after = self.with_selected_folder(folder);
            assert forall|i: int| 0 <= i < after.folders.len() implies
                (#[trigger] after.folders[i]).wf() by {
                if i != self.selected {
                    assert(self.folders[i].wf());
                }
            }
        }
    }

    /// Putting a task in the place of the task under the cursor keeps a
    /// well-formed folder well formed.
    pub proof fn lemma_with_selected_task_wf(self, task: TaskView)
        requires
            self.wf(),
        ensures
            self.with_selected_task(task).wf(),
    {
        let after = self.with_selected_task(task);
        assert forall|i: int| 0 <= i < after.folders.len() implies
            (#[trigger] after.folders[i]).wf() by {
            assert(self.folders[i].wf());
        }
    }

    /// A folder of another name, with all else the same, is as well formed.
    pub proof fn lemma_renamed_wf(self, name: Seq<char>)
        requires
            self.wf(),
        ensures
            (FolderView { name, ..self }).wf(),
    {
        let after = FolderView { name, ..self };
        assert forall|i: int| 0 <= i < after.folders.len() implies
            (#[trigger] after.folders[i]).wf() by {
            assert(self.folders[i].wf());
        }
    }

    /// Deleting in a folder with entries leaves one entry fewer, deleting in
    /// an empty folder changes nothing, and either way the cursor is within
    /// the listing that is left.
    pub proof fn lemma_deleted_shrinks_by_one(self)
        requires
            self.cursor_in_bounds(),
        ensures
            self.total() > 0 ==> self.deleted().total() == self.total() - 1,
            self.total() == 0 ==> self.deleted() == self,
            self.deleted().cursor_in_bounds(),
            self.wf() ==> self.deleted().wf(),
    {
        if self.wf() {
            let after = self.deleted();
            assert forall|i: int| 0 <= i < after.folders.len() implies
                (#[trigger] after.folders[i]).wf() by {
                if self.selected < self.folders.len() && i >= self.selected {
                    assert(self.folders[i + 1].wf());
                } else {
                    assert(self.folders[i].wf());
                }
            }
        }
    }
}

/// The names of a path, as plain values.
pub open spec fn path_view(path: Seq<String>) -> Seq<Seq<char>> {
    path.map_values(|name: String| name@)
}

/// A path named a folder that is not there.
#[derive(Debug)]
pub struct NotFound {
    pub name: String,
}

impl NotFound {
    /// The error in words.
    pub fn message(&self) -> (text: String)
        ensures
            text@ == "Folder with name "@ + self.name@ + " doesn't exist"@,
    {
        String::from_str("Folder with name ").concat(self.name.as_str()).concat(" doesn't exist")
    }
}

/// One row of a folder's unified listing, ready to be shown.
#[derive(Debug)]
pub struct Entry {
    pub label: String,
    pub is_folder: bool,
    pub selected: bool,
}

impl View for Entry {
    type V = EntryView;

    open spec fn view(&self) -> EntryView {
        EntryView { label: self.label@, is_folder: self.is_folder, selected: self.selected }
    }
}

/// A named container of subfolders and tasks with a selection cursor.
#[derive(Debug)]
pub struct Folder {
    name: String,
    tasks: Vec<Task>,
    folders: Vec<Folder>,
    selected: usize,
}

/// The trees that a sequence of folders stands for, in the same order.
spec fn folder_views(folders: Seq<Folder>) -> Seq<FolderView>
    decreases folders,
{
    if folders.len() == 0 {
        Seq::empty()
    } else {
        folder_views(folders.drop_last()).push(folders.last()@)
    }
}

impl View for Folder {
    type V = FolderView;

    closed spec fn view(&self) -> FolderView
        decreases self,
    {
        FolderView {
            name: self.name@,
            tasks: self.tasks@.map_values(|task: Task| task@),
            folders: folder_views(self.folders@),
            selected: self.selected as nat,
        }
    }
}

/// `folder_views` maps each folder to its tree, index by index.
proof fn lemma_folder_views(folders: Seq<Folder>)
    ensures
        folder_views(folders).len() == folders.len(),
        forall|i: int|
            0 <= i < folders.len() ==> (#[trigger] folder_views(folders)[i]) == folders[i]@,
    decreases folders.len(),
{
    if folders.len() > 0 {
        lemma_folder_views(folders.drop_last());
        assert(folder_views(folders) == folder_views(folders.drop_last()).push(folders.last()@));
    } else {
        assert(folder_views(folders) == Seq::<FolderView>::empty());
    }
}

impl Default for Folder {
    fn default() -> (folder: Folder)
        ensures
            folder@ == FolderView::empty(Seq::empty()),
    {
        let folder = Folder {
            name: String::new(),
            tasks: Vec::new(),
            folders: Vec::new(),
            selected: 0,
        };
        assert(folder@.tasks =~= Seq::empty());
        folder
    }
}

impl Folder {
    /// `post` is `pre` but for task `i`.
    spec fn same_but_task(pre: Folder, post: Folder, i: int) -> bool {
        &&& 0 <= i < pre.tasks@.len()
        &&& post.name == pre.name
        &&& post.folders == pre.folders
        &&& post.selected == pre.selected
        &&& post.tasks@ == pre.tasks@.update(i, post.tasks@[i])
    }

    /// `post` is `pre` but for subfolder `i`.
    spec fn same_but_folder(pre: Folder, post: Folder, i: int) -> bool {
        &&& 0 <= i < pre.folders@.len()
        &&& post.name == pre.name
        &&& post.tasks == pre.tasks
        &&& post.selected == pre.selected
        &&& post.folders@ == pre.folders@.update(i, post.folders@[i])
    }

    proof fn lemma_same_but_task(pre: Folder, post: Folder, i: int)
        requires
            Self::same_but_task(pre, post, i),
        ensures
            post@ == (FolderView { tasks: pre@.tasks.update(i, post.tasks@[i]@), ..pre@ }),
    {
        assert(post@.tasks =~= pre@.tasks.update(i, post.tasks@[i]@));
    }

    proof fn lemma_same_but_folder(pre: Folder, post: Folder, i: int)
        requires
            Self::same_but_folder(pre, post, i),
        ensures
            post@ == (FolderView { folders: pre@.folders.update(i, post.folders@[i]@), ..pre@ }),
            post.folders@[i]@ == pre@.folders[i] ==> post@ == pre@,
    {
        lemma_folder_views(pre.folders@);
        lemma_folder_views(post.folders@);
        assert(post@.folders =~= pre@.folders.update(i, post.folders@[i]@));
        if post.folders@[i]@ == pre@.folders[i] {
            assert(post@.folders =~= pre@.folders);
        }
    }

    /// An empty folder with an empty name.
    pub fn new() -> (folder: Folder)
        ensures
            folder@ == FolderView::empty(Seq::empty()),
    {
        Folder::default()
    }

    /// Appends `task` and hands back the stored task. The cursor stays.
    pub fn new_task(&mut self, task: Task) -> (stored: &mut Task)
        ensures
            *stored == task,
            final(self)@ == old(self)@.with_task(final(stored)@),
            old(self)@.wf() && old(self)@.has_room() ==> final(self)@.wf(),
    {
        self.tasks.push(task);
        let last: usize = self.tasks.len() - 1;
        proof {
            let pre = *self;
            if old(self)@.wf() && old(self)@.has_room() {
                assert forall|added: TaskView| #[trigger] old(self)@.with_task(added).wf() by {
                    old(self)@.lemma_with_task_wf(added);
                }
            }
            assert(pre@.tasks =~= old(self)@.tasks.push(task@));
            assert forall|post: Folder| Self::same_but_task(pre, post, last as int) implies
                #[trigger] post@
                == old(self)@.with_task(post.tasks@[last as int]@) by {
                Self::lemma_same_but_task(pre, post, last as int);
                assert(pre@.tasks.update(last as int, post.tasks@[last as int]@) =~= old(
                    self,
                )@.tasks.push(post.tasks@[last as int]@));
            }
        }
        &mut self.tasks[last]
    }

    /// Appends an empty folder called `name` and hands back the stored folder.
    pub fn new_folder(&mut self, name: String) -> (stored: &mut Folder)
        ensures
            stored@ == FolderView::empty(name@),
            final(self)@ == old(self)@.with_folder(final(stored)@),
            old(self)@.wf() && old(self)@.has_room() && final(stored)@.wf() ==> final(self)@.wf(),
    {
        proof {
            if old(self)@.wf() && old(self)@.has_room() {
                assert forall|added: FolderView| added.wf() implies #[trigger] old(
                    self,
                )@.with_folder(added).wf() by {
                    old(self)@.lemma_with_folder_wf(added);
                }
            }
        }
        let mut folder = Folder::new();
        folder.name = name;
        assert(folder@ == FolderView::empty(name@)) by {
            assert(folder@.tasks =~= Seq::empty());
        }
        self.folders.push(folder);
        let last: usize = self.folders.len() - 1;
        proof {
            let pre = *self;
            lemma_folder_views(old(self).folders@);
            lemma_folder_views(pre.folders@);
            assert(pre@.folders =~= old(self)@.folders.push(folder@));
            assert forall|post: Folder| Self::same_but_folder(pre, post, last as int) implies
                #[trigger] post@
                == old(self)@.with_folder(post.folders@[last as int]@) by {
                Self::lemma_same_but_folder(pre, post, last as int);
                assert(pre@.folders.update(last as int, post.folders@[last as int]@) =~= old(
                    self,
                )@.folders.push(post.folders@[last as int]@));
            }
        }
        &mut self.folders[last]
    }

    /// What the view says of the fields, one by one.
    proof fn lemma_view(self)
        ensures
            self@.name == self.name@,
            self@.selected == self.selected,
            self@.tasks.len() == self.tasks@.len(),
            self@.folders.len() == self.folders@.len(),
            forall|i: int|
                0 <= i < self.tasks@.len() ==> (#[trigger] self@.tasks[i]) == self.tasks@[i]@,
            forall|i: int|
                0 <= i < self.folders@.len() ==> (#[trigger] self@.folders[i]) == self.folders@[i]@,
    {
        lemma_folder_views(self.folders@);
    }

    /// The length of the unified listing.
    pub fn len(&self) -> (total: usize)
        requires
            self@.wf(),
        ensures
            total == self@.total(),
    {
        proof {
            self.lemma_view();
        }
        self.folders.len() + self.tasks.len()
    }

    /// Moves the cursor by `dist` places, stopping at either end of the listing.
    pub fn adjust_selected(&mut self, dist: i32)
        requires
            old(self)@.wf(),
        ensures
            final(self)@ == old(self)@.moved(dist as int),
            final(self)@.total() > 0 ==> final(self)@.selected < final(self)@.total(),
            final(self)@.total() == 0 ==> final(self)@.selected == 0,
            final(self)@.wf(),
    {
        let total: usize = self.len();
        let ghost before = *self;
        if total == 0 {
            self.selected = 0;
        } else {
            let max: usize = total - 1;
            proof {
                before.lemma_view();
            }
            if dist >= 0 {
                let forward: usize = dist as usize;
                if forward > max - self.selected {
                    self.selected = max;
                } else {
                    self.selected = self.selected + forward;
                }
            } else {
                let back: i64 = -(dist as i64);
                if back as u64 > self.selected as u64 {
                    self.selected = 0;
                } else {
                    self.selected = self.selected - back as usize;
                }
            }
        }
        proof {
            before.lemma_view();
            self.lemma_view();
            assert(self@.tasks =~= before@.tasks);
            assert(self@.folders =~= before@.folders);
            assert(self@ == before@.moved(dist as int));
        }
    }

    /// Removes the entry under the cursor: a subfolder with all it holds, or a
    /// task. Does nothing in an empty folder. The cursor then steps back by
    /// one, unless it is at 0, and is held within the shorter listing.
    pub fn delete_selected(&mut self)
        requires
            old(self)@.wf(),
        ensures
            final(self)@ == old(self)@.deleted(),
            old(self)@.total() > 0 ==> final(self)@.total() == old(self)@.total() - 1,
            old(self)@.total() == 0 ==> final(self)@ == old(self)@,
            final(self)@.cursor_in_bounds(),
            final(self)@.wf(),
    {
        let ghost before = *self;
        proof {
            before.lemma_view();
        }
        if self.folders.is_empty() && self.tasks.is_empty() {
            return ;
        }
        if self.selected < self.folders.len() {
            self.folders.remove(self.selected);
        } else {
            self.tasks.remove(self.selected - self.folders.len());
        }
        if self.selected > 0 {
            self.selected -= 1;
        }
        let left: usize = self.folders.len() + self.tasks.len();
        if left == 0 {
            self.selected = 0;
        } else if self.selected > left - 1 {
            self.selected = left - 1;
        }
        proof {
            self.lemma_view();
            if before.selected < before.folders@.len() {
                assert(self@.tasks =~= before@.tasks);
                assert(self@.folders =~= before@.folders.remove(before.selected as int));
            } else {
                assert(self@.folders =~= before@.folders);
                assert(self@.tasks =~= before@.tasks.remove(
                    before.selected - before.folders@.len(),
                ));
            }
            assert(self@ == before@.deleted());
        }
    }

    /// The task under the cursor, if the cursor is on a task.
    pub fn get_selected_task(&mut self) -> (selected: Option<&mut Task>)
        ensures
            match selected {
                Some(task) => {
                    &&& old(self)@.selected_task() == Some(task@)
                    &&& final(self)@ == old(self)@.with_selected_task(final(task)@)
                },
                None => old(self)@.selected_task() is None && final(self)@ == old(self)@,
            },
            old(self)@.wf() ==> final(self)@.wf(),
    {
        proof {
            self.lemma_view();
            if self@.wf() {
                assert forall|task: TaskView| #[trigger] self@.with_selected_task(task).wf() by {
                    self@.lemma_with_selected_task_wf(task);
                }
            }
        }
        if self.selected < self.folders.len() {
            return None;
        }
        let at: usize = self.selected - self.folders.len();
        if at < self.tasks.len() {
            proof {
                let pre = *self;
                assert forall|post: Folder| Self::same_but_task(pre, post, at as int) implies
                    #[trigger] post@
                    == (FolderView {
                    tasks: pre@.tasks.update(at as int, post.tasks@[at as int]@),
                    ..pre@
                }) by {
                    Self::lemma_same_but_task(pre, post, at as int);
                }
            }
            Some(&mut self.tasks[at])
        } else {
            None
        }
    }

    /// The subfolder under the cursor, if the cursor is on a subfolder.
    pub fn get_selected_folder(&mut self) -> (selected: Option<&mut Folder>)
        ensures
            match selected {
                Some(folder) => {
                    &&& old(self)@.selected_folder() == Some(folder@)
                    &&& final(self)@ == old(self)@.with_selected_folder(final(folder)@)
                    &&& old(self)@.wf() ==> folder@.wf()
                    &&& old(self)@.wf() && final(folder)@.wf() ==> final(self)@.wf()
                },
                None => old(self)@.selected_folder() is None && final(self)@ == old(self)@,
            },
    {
        proof {
            self.lemma_view();
            if self@.wf() {
                assert forall|folder: FolderView| folder.wf() implies
                    #[trigger] self@.with_selected_folder(
                    folder,
                ).wf() by {
                    self@.lemma_with_selected_folder_wf(folder);
                }
                self@.lemma_with_selected_folder_wf(self@);
            }
        }
        if self.selected >= self.folders.len() {
            return None;
        }
        let at: usize = self.selected;
        proof {
            let pre = *self;
            assert forall|post: Folder| Self::same_but_folder(pre, post, at as int) implies
                #[trigger] post@
                == (FolderView {
                folders: pre@.folders.update(at as int, post.folders@[at as int]@),
                ..pre@
            }) by {
                Self::lemma_same_but_folder(pre, post, at as int);
            }
        }
        Some(&mut self.folders[at])
    }

    /// The folder that `path` leads to from here, one name at a time, each
    /// name matched against the first subfolder that bears it. An empty path
    /// leads to this folder itself.
    pub fn get_folder(&mut self, path: VecDeque<String>) -> (found: Result<&mut Folder, NotFound>)
        ensures
            match found {
                Ok(folder) => {
                    &&& old(self)@.resolve(path_view(path@)) == Ok::<FolderView, Seq<char>>(folder@)
                    &&& final(self)@ == old(self)@.replace_at(path_view(path@), final(folder)@)
                    &&& old(self)@.wf() ==> folder@.wf()
                    &&& old(self)@.wf() && final(folder)@.wf() && final(folder)@.name == folder@.name
                        ==> final(self)@.wf()
                },
                Err(missing) => {
                    &&& old(self)@.resolve(path_view(path@)) == Err::<FolderView, Seq<char>>(
                        missing.name@,
                    )
                    &&& final(self)@ == old(self)@
                },
            },
        decreases path@.len(),
    {
        let mut path = path;
        let ghost names = path_view(path@);
        proof {
            let before = self@;
            if before.resolve(names) is Ok {
                if before.wf() {
                    before.lemma_resolve_wf(names);
                }
                assert forall|folder: FolderView|
                    folder.name == before.resolve(names)->Ok_0.name && before.wf()
                        && folder.wf() implies #[trigger] before.replace_at(names, folder).wf() by {
                    before.lemma_replace_at(names, folder);
                }
            }
        }
        match path.pop_front() {
            None => {
                assert(names.len() == 0);
                Ok(self)
            },
            Some(item) => {
                proof {
                    self.lemma_view();
                    assert(path_view(path@) =~= names.drop_first());
                    assert(names[0] == item@);
                }
                let mut at: usize = 0;
                while at < self.folders.len() && !(self.folders[at].name == item)
                    invariant
                        at <= self.folders@.len(),
                        forall|j: int| 0 <= j < at ==> (#[trigger] self.folders@[j]).name@ != item@,
                    decreases self.folders@.len() - at,
                {
                    at += 1;
                }
                if at < self.folders.len() {
                    proof {
                        let pre = *self;
                        assert(pre@.is_first_named(item@, at as int));
                        pre@.lemma_child_named(item@, at as int);
                        assert(pre@.resolve(names) == pre@.folders[at as int].resolve(
                            names.drop_first(),
                        ));
                        assert forall|folder: FolderView| #[trigger]
                            pre@.replace_at(names, folder) == (FolderView {
                                folders: pre@.folders.update(
                                    at as int,
                                    pre@.folders[at as int].replace_at(names.drop_first(), folder),
                                ),
                                ..pre@
                            }) by {}
                        assert forall|post: Folder|
                            Self::same_but_folder(pre, post, at as int) implies #[trigger] post@
                            == (FolderView {
                            folders: pre@.folders.update(at as int, post.folders@[at as int]@),
                            ..pre@
                        }) && (post.folders@[at as int]@ == pre@.folders[at as int] ==> post@
                            == pre@) by {
                            Self::lemma_same_but_folder(pre, post, at as int);
                        }
                    }
                    self.folders[at].get_folder(path)
                } else {
                    proof {
                        self@.lemma_no_child_named(item@);
                    }
                    Err(NotFound { name: item })
                }
            },
        }
    }

    /// The folder's name.
    pub fn name(&self) -> (name: &String)
        ensures
            name@ == self@.name,
    {
        &self.name
    }

    /// Renames the folder. What it holds and its cursor stay.
    pub fn set_name(&mut self, name: String)
        ensures
            final(self)@ == (FolderView { name: name@, ..old(self)@ }),
            old(self)@.wf() ==> final(self)@.wf(),
    {
        proof {
            if self@.wf() {
                self@.lemma_renamed_wf(name@);
            }
        }
        self.name = name;
    }

    /// The position of the cursor in the unified listing.
    pub fn selected(&self) -> (cursor: usize)
        ensures
            cursor == self@.selected,
    {
        self.selected
    }

    /// The tasks, in their order.
    pub fn tasks(&self) -> (tasks: &Vec<Task>)
        ensures
            tasks@.len() == self@.tasks.len(),
            forall|i: int| 0 <= i < tasks@.len() ==> (#[trigger] tasks@[i])@ == self@.tasks[i],
    {
        proof {
            self.lemma_view();
        }
        &self.tasks
    }

    /// The subfolders, in their order.
    pub fn folders(&self) -> (folders: &Vec<Folder>)
        ensures
            folders@.len() == self@.folders.len(),
            forall|i: int|
                0 <= i < folders@.len() ==> (#[trigger] folders@[i])@ == self@.folders[i],
    {
        proof {
            self.lemma_view();
        }
        &self.folders
    }

    /// The folder called `name` that holds `tasks` and `folders`, in their
    /// order, with the cursor at 0.
    pub fn from_parts(name: String, tasks: Vec<Task>, folders: Vec<Folder>) -> (folder: Folder)
        ensures
            folder@.name == name@,
            folder@.selected == 0,
            folder@.tasks.len() == tasks@.len(),
            forall|i: int| 0 <= i < tasks@.len() ==> (#[trigger] folder@.tasks[i]) == tasks@[i]@,
            folder@.folders.len() == folders@.len(),
            forall|i: int|
                0 <= i < folders@.len() ==> (#[trigger] folder@.folders[i]) == folders@[i]@,
    {
        let folder = Folder { name, tasks, folders, selected: 0 };
        proof {
            folder.lemma_view();
        }
        folder
    }

    /// The task under the cursor, if the cursor is on a task.
    pub fn selected_task(&self) -> (selected: Option<&Task>)
        ensures
            match selected {
                Some(task) => self@.selected_task() == Some(task@),
                None => self@.selected_task() is None,
            },
    {
        proof {
            self.lemma_view();
        }
        if self.selected < self.folders.len() {
            return None;
        }
        let at: usize = self.selected - self.folders.len();
        if at < self.tasks.len() {
            Some(&self.tasks[at])
        } else {
            None
        }
    }

    /// The subfolder under the cursor, if the cursor is on a subfolder.
    pub fn selected_folder(&self) -> (selected: Option<&Folder>)
        ensures
            match selected {
                Some(folder) => self@.selected_folder() == Some(folder@),
                None => self@.selected_folder() is None,
            },
    {
        proof {
            self.lemma_view();
        }
        if self.selected < self.folders.len() {
            Some(&self.folders[self.selected])
        } else {
            None
        }
    }

    /// The folder that `path` leads to from here, as `get_folder` finds it,
    /// for reading only.
    pub fn find_folder(&self, path: &Vec<String>) -> (found: Option<&Folder>)
        ensures
            match found {
                Some(folder) => {
                    &&& self@.resolve(path_view(path@)) == Ok::<FolderView, Seq<char>>(folder@)
                    &&& self@.wf() ==> folder@.wf()
                },
                None => self@.resolve(path_view(path@)) is Err,
            },
    {
        proof {
            assert(path_view(path@).skip(0) =~= path_view(path@));
            if self@.wf() && self@.resolve(path_view(path@)) is Ok {
                self@.lemma_resolve_wf(path_view(path@));
            }
        }
        self.find_from(path, 0)
    }

    fn find_from<'a>(&'a self, path: &Vec<String>, from: usize) -> (found: Option<&'a Folder>)
        requires
            from <= path@.len(),
        ensures
            match found {
                Some(folder) => self@.resolve(path_view(path@).skip(from as int)) == Ok::<
                    FolderView,
                    Seq<char>,
                >(folder@),
                None => self@.resolve(path_view(path@).skip(from as int)) is Err,
            },
        decreases path@.len() - from,
    {
        let ghost names = path_view(path@).skip(from as int);
        if from == path.len() {
            return Some(self);
        }
        proof {
            self.lemma_view();
            assert(names[0] == path@[from as int]@);
            assert(names.drop_first() =~= path_view(path@).skip(from + 1));
        }
        let mut at: usize = 0;
        while at < self.folders.len() && !(self.folders[at].name == path[from])
            invariant
                from < path@.len(),
                at <= self.folders@.len(),
                forall|j: int|
                    0 <= j < at ==> (#[trigger] self.folders@[j]).name@ != path@[from as int]@,
            decreases self.folders@.len() - at,
        {
            at += 1;
        }
        if at < self.folders.len() {
            proof {
                assert(self@.is_first_named(names[0], at as int));
                self@.lemma_child_named(names[0], at as int);
                assert(self@.resolve(names) == self@.folders[at as int].resolve(
                    names.drop_first(),
                ));
            }
            self.folders[at].find_from(path, from + 1)
        } else {
            proof {
                self@.lemma_no_child_named(names[0]);
            }
            None
        }
    }

    /// The unified listing: a row for each subfolder, then a row for each
    /// task, with the row under the cursor marked.
    pub fn entries(&self) -> (rows: Vec<Entry>)
        ensures
            rows@.len() == self@.total(),
            forall|i: int| 0 <= i < rows@.len() ==> (#[trigger] rows@[i])@ == self@.entry(i),
    {
        proof {
            self.lemma_view();
        }
        let mut rows: Vec<Entry> = Vec::new();
        let mut at: usize = 0;
        while at < self.folders.len()
            invariant
                at <= self.folders@.len(),
                rows@.len() == at,
                self@.folders.len() == self.folders@.len(),
                self@.selected == self.selected,
                forall|i: int|
                    0 <= i < self.folders@.len() ==> (#[trigger] self@.folders[i])
                        == self.folders@[i]@,
                forall|i: int| 0 <= i < rows@.len() ==> (#[trigger] rows@[i])@ == self@.entry(i),
            decreases self.folders@.len() - at,
        {
            let selected: bool = rows.len() == self.selected;
            proof {
                self.folders@[at as int].lemma_view();
            }
            rows.push(Entry { label: self.folders[at].name.clone(), is_folder: true, selected });
            at += 1;
        }
        let mut at: usize = 0;
        while at < self.tasks.len()
            invariant
                at <= self.tasks@.len(),
                rows@.len() == self.folders@.len() + at,
                self@.folders.len() == self.folders@.len(),
                self@.tasks.len() == self.tasks@.len(),
                self@.selected == self.selected,
                forall|i: int|
                    0 <= i < self.tasks@.len() ==> (#[trigger] self@.tasks[i]) == self.tasks@[i]@,
                forall|i: int| 0 <= i < rows@.len() ==> (#[trigger] rows@[i])@ == self@.entry(i),
            decreases self.tasks@.len() - at,
        {
            let selected: bool = rows.len() == self.selected;
            rows.push(Entry { label: self.tasks[at].title.clone(), is_folder: false, selected });
            at += 1;
        }
        rows
    }

    /// Whether every cursor in the tree is within its folder's listing and
    /// every listing can be indexed by a `usize`.
    pub fn is_well_formed(&self) -> (ok: bool)
        ensures
            ok == self@.wf(),
        decreases self,
    {
        proof {
            self.lemma_view();
        }
        let total: usize = match self.folders.len().checked_add(self.tasks.len()) {
            Some(total) => total,
            None => {
                return false;
            },
        };
        if total == 0 {
            if self.selected != 0 {
                return false;
            }
        } else if self.selected > total - 1 {
            return false;
        }
        let mut at: usize = 0;
        while at < self.folders.len()
            invariant
                at <= self.folders@.len(),
                self@.folders.len() == self.folders@.len(),
                forall|i: int|
                    0 <= i < self.folders@.len() ==> (#[trigger] self@.folders[i])
                        == self.folders@[i]@,
                forall|i: int| 0 <= i < at ==> (#[trigger] self@.folders[i]).wf(),
            decreases self.folders@.len() - at,
        {
            if !self.folders[at].is_well_formed() {
                assert(!self@.folders[at as int].wf());
                return false;
            }
            at += 1;
        }
        true
    }
}

} // verus!
