use rtasks::buffer::Edit;
use rtasks::folder::Folder;
use rtasks::session::{InputRequestType, InputStatus, Key, Outcome, Session, TaskStep, TABS};
use rtasks::task::{Status, Task};

fn press(session: &mut Session, key: Key) -> Outcome {
    let edit = match key {
        Key::Char(c) => Some(Edit::InsertChar(c)),
        Key::Left => Some(Edit::GoToPrevChar),
        Key::Right => Some(Edit::GoToNextChar),
        _ => None,
    };
    let outcome = session.handle_key(key, edit);
    assert!(session.is_well_formed());
    outcome
}

fn type_text(session: &mut Session, text: &str) {
    for c in text.chars() {
        assert_eq!(press(session, Key::Char(c)), Outcome::Continue);
    }
}

fn commit(session: &mut Session, text: &str) {
    type_text(session, text);
    assert_eq!(session.buffer(), text);
    assert_eq!(press(session, Key::Enter), Outcome::Continue);
    assert_eq!(session.buffer(), "");
}

fn open_prompt(session: &mut Session, keys: &str) {
    assert_eq!(session.status(), InputStatus::Empty);
    press(session, Key::Char(' '));
    assert_eq!(session.status(), InputStatus::Controls);
    for c in keys.chars() {
        press(session, Key::Char(c));
    }
}

fn task(title: &str, color: u8) -> Task {
    Task {
        title: title.to_string(),
        task: "body".to_string(),
        status: Status { status: "Incomplete".to_string(), color },
    }
}

/// A root with one subfolder "A" and one task "t", the cursor on the task.
fn session_on_a_task() -> Session {
    let mut root = Folder::new();
    root.new_folder("A".to_string());
    root.new_task(task("t", 5));
    root.adjust_selected(1);
    Session::new(root)
}

#[test]
fn session_starts_idle_at_the_root() {
    let session = Session::new(Folder::new());
    assert_eq!(session.status(), InputStatus::Empty);
    assert_eq!(session.tab(), 0);
    assert!(session.path().is_empty());
    assert_eq!(session.buffer(), "");
    assert_eq!(session.pending().title, "");
    assert_eq!(session.pending().task, "");
    assert_eq!(session.pending().status.status, "Incomplete");
    assert_eq!(session.pending().status.color, 5);
    assert_eq!(session.root().len(), 0);
    assert_eq!(session.current_folder().len(), 0);
    assert!(session.is_well_formed());
}

#[test]
fn new_task_flow_asks_for_title_then_details() {
    let mut session = Session::new(Folder::new());
    open_prompt(&mut session, "nt");
    assert_eq!(
        session.status(),
        InputStatus::Request(InputRequestType::NewTask { step: TaskStep::Title })
    );

    commit(&mut session, "Buy milk");
    assert_eq!(
        session.status(),
        InputStatus::Request(InputRequestType::NewTask { step: TaskStep::Details })
    );
    assert_eq!(session.root().len(), 0);
    assert_eq!(session.pending().title, "Buy milk");

    commit(&mut session, "2% milk");
    assert_eq!(session.status(), InputStatus::Empty);
    let tasks = session.root().tasks();
    assert_eq!(tasks.len(), 1);
    assert_eq!(tasks[0].title, "Buy milk");
    assert_eq!(tasks[0].task, "2% milk");
    assert_eq!(tasks[0].status.status, "Incomplete");
    assert_eq!(tasks[0].status.color, 5);
    assert_eq!(session.root().selected(), 0);
    assert_eq!(session.pending().title, "");
    assert_eq!(session.pending().task, "");
}

#[test]
fn edit_status_flow_asks_for_label_then_colour() {
    let mut session = session_on_a_task();
    open_prompt(&mut session, "es");
    assert_eq!(
        session.status(),
        InputStatus::Request(InputRequestType::EditTask { step: TaskStep::Status })
    );

    commit(&mut session, "Done");
    assert_eq!(session.root().tasks()[0].status.status, "Done");
    assert_eq!(
        session.status(),
        InputStatus::Request(InputRequestType::EditTask { step: TaskStep::StatusColor })
    );

    commit(&mut session, "9");
    assert_eq!(session.root().tasks()[0].status.color, 9);
    assert_eq!(session.status(), InputStatus::Empty);

    open_prompt(&mut session, "es");
    commit(&mut session, "Done");
    commit(&mut session, "abc");
    assert_eq!(session.root().tasks()[0].status.color, 9);
    assert_eq!(session.root().tasks()[0].status.status, "Done");
    assert_eq!(session.status(), InputStatus::Empty);
}

#[test]
fn colour_out_of_range_is_discarded() {
    let mut session = session_on_a_task();
    for text in ["256", "", "-1", "12 "] {
        open_prompt(&mut session, "es");
        commit(&mut session, "Late");
        commit(&mut session, text);
        assert_eq!(session.root().tasks()[0].status.color, 5);
        assert_eq!(session.status(), InputStatus::Empty);
    }
    open_prompt(&mut session, "es");
    commit(&mut session, "Late");
    commit(&mut session, "255");
    assert_eq!(session.root().tasks()[0].status.color, 255);
}

#[test]
fn keys_in_a_prompt_edit_the_buffer() {
    let mut session = Session::new(Folder::new());
    open_prompt(&mut session, "nf");
    type_text(&mut session, "abd");
    assert_eq!(session.buffer(), "abd");

    session.handle_key(Key::Other, Some(Edit::DeletePrevChar));
    assert_eq!(session.buffer(), "ab");
    session.handle_key(Key::Other, Some(Edit::GoToStart));
    session.handle_key(Key::Char('x'), Some(Edit::InsertChar('x')));
    assert_eq!(session.buffer(), "xab");
    session.handle_key(Key::Other, Some(Edit::DeleteNextChar));
    assert_eq!(session.buffer(), "xb");
    session.handle_key(Key::Other, Some(Edit::GoToEnd));
    session.handle_key(Key::Char('!'), Some(Edit::InsertChar('!')));
    assert_eq!(session.buffer(), "xb!");
    session.handle_key(Key::Other, Some(Edit::SetCursor(1)));
    session.handle_key(Key::Other, Some(Edit::DeleteTillEnd));
    assert_eq!(session.buffer(), "x");
    session.handle_key(Key::Other, Some(Edit::DeleteLine));
    assert_eq!(session.buffer(), "");
    assert_eq!(session.status(), InputStatus::Request(InputRequestType::NewFolder));
    assert_eq!(session.root().len(), 0);
}

#[test]
fn arrows_in_a_prompt_move_in_the_buffer_and_not_in_the_tree() {
    let mut session = session_on_a_task();
    open_prompt(&mut session, "nf");
    type_text(&mut session, "ac");
    press(&mut session, Key::Left);
    press(&mut session, Key::Char('b'));
    press(&mut session, Key::Up);
    press(&mut session, Key::Down);
    press(&mut session, Key::Tab);
    assert_eq!(session.buffer(), "abc");
    assert_eq!(session.root().selected(), 1);
    assert_eq!(session.tab(), 0);
    assert!(session.path().is_empty());
}

#[test]
fn word_edits_reach_the_buffer() {
    let mut session = Session::new(Folder::new());
    open_prompt(&mut session, "nf");
    type_text(&mut session, "one two");
    session.handle_key(Key::Other, Some(Edit::DeletePrevWord));
    assert_eq!(session.buffer(), "one ");
    session.handle_key(Key::Other, Some(Edit::GoToPrevWord));
    session.handle_key(Key::Other, Some(Edit::DeleteNextWord));
    assert_eq!(session.buffer(), "");
    type_text(&mut session, "a b");
    session.handle_key(Key::Other, Some(Edit::GoToStart));
    session.handle_key(Key::Other, Some(Edit::GoToNextWord));
    session.handle_key(Key::Other, Some(Edit::DeleteTillEnd));
    assert_eq!(session.buffer(), "a ");
}

#[test]
fn key_that_stands_for_no_edit_leaves_the_buffer() {
    let mut session = Session::new(Folder::new());
    open_prompt(&mut session, "nf");
    type_text(&mut session, "name");
    assert_eq!(session.handle_key(Key::Other, None), Outcome::Continue);
    assert_eq!(session.handle_key(Key::Tab, None), Outcome::Continue);
    assert_eq!(session.buffer(), "name");
    assert_eq!(session.status(), InputStatus::Request(InputRequestType::NewFolder));
}

#[test]
fn escape_gives_up_the_prompt_and_changes_nothing() {
    let mut session = session_on_a_task();
    open_prompt(&mut session, "nt");
    commit(&mut session, "half");
    type_text(&mut session, "typed");
    assert_eq!(press(&mut session, Key::Esc), Outcome::Continue);
    assert_eq!(session.status(), InputStatus::Empty);
    assert_eq!(session.buffer(), "");
    assert_eq!(session.pending().title, "");
    assert_eq!(session.root().len(), 2);
    assert_eq!(session.root().tasks()[0].title, "t");

    open_prompt(&mut session, "d");
    type_text(&mut session, "Y");
    press(&mut session, Key::Esc);
    assert_eq!(session.root().len(), 2);
    assert_eq!(session.buffer(), "");
}

#[test]
fn new_folder_flow_appends_an_empty_folder() {
    let mut session = session_on_a_task();
    open_prompt(&mut session, "nf");
    assert_eq!(session.status(), InputStatus::Request(InputRequestType::NewFolder));
    commit(&mut session, "B");
    assert_eq!(session.status(), InputStatus::Empty);
    let folders = session.root().folders();
    assert_eq!(folders.len(), 2);
    assert_eq!(folders[0].name(), "A");
    assert_eq!(folders[1].name(), "B");
    assert_eq!(folders[1].len(), 0);
    assert_eq!(session.root().selected(), 1);
}

#[test]
fn rename_flow_renames_the_selected_folder() {
    let mut session = session_on_a_task();
    press(&mut session, Key::Up);
    open_prompt(&mut session, "e");
    assert_eq!(session.status(), InputStatus::Request(InputRequestType::RenameFolder));
    commit(&mut session, "Renamed");
    assert_eq!(session.status(), InputStatus::Empty);
    assert_eq!(session.root().folders()[0].name(), "Renamed");
    assert_eq!(session.root().len(), 2);
}

#[test]
fn edit_on_a_task_opens_the_edit_menu() {
    let mut session = session_on_a_task();
    open_prompt(&mut session, "e");
    assert_eq!(session.status(), InputStatus::Edit);
    press(&mut session, Key::Char('t'));
    assert_eq!(
        session.status(),
        InputStatus::Request(InputRequestType::EditTask { step: TaskStep::Title })
    );
    commit(&mut session, "new title");
    assert_eq!(session.status(), InputStatus::Empty);
    assert_eq!(session.root().tasks()[0].title, "new title");

    open_prompt(&mut session, "ed");
    assert_eq!(
        session.status(),
        InputStatus::Request(InputRequestType::EditTask { step: TaskStep::Details })
    );
    commit(&mut session, "new body");
    assert_eq!(session.status(), InputStatus::Empty);
    assert_eq!(session.root().tasks()[0].task, "new body");
    assert_eq!(session.root().tasks()[0].title, "new title");
}

#[test]
fn edit_with_nothing_selected_changes_nothing() {
    let mut session = Session::new(Folder::new());
    open_prompt(&mut session, "e");
    assert_eq!(session.status(), InputStatus::Edit);
    press(&mut session, Key::Char('s'));
    commit(&mut session, "Done");
    assert_eq!(
        session.status(),
        InputStatus::Request(InputRequestType::EditTask { step: TaskStep::StatusColor })
    );
    commit(&mut session, "9");
    assert_eq!(session.status(), InputStatus::Empty);
    assert_eq!(session.root().len(), 0);
}

#[test]
fn confirmed_delete_removes_the_selected_entry() {
    for yes in ["Y", "y"] {
        let mut session = session_on_a_task();
        open_prompt(&mut session, "d");
        assert_eq!(session.status(), InputStatus::Request(InputRequestType::ConfirmDelete));
        commit(&mut session, yes);
        assert_eq!(session.status(), InputStatus::Empty);
        assert_eq!(session.root().len(), 1);
        assert!(session.root().tasks().is_empty());
        assert_eq!(session.root().selected(), 0);
    }
}

#[test]
fn unconfirmed_delete_removes_nothing() {
    for no in ["N", "n", "", "yes", "YY"] {
        let mut session = session_on_a_task();
        open_prompt(&mut session, "d");
        commit(&mut session, no);
        assert_eq!(session.status(), InputStatus::Empty);
        assert_eq!(session.root().len(), 2);
        assert_eq!(session.root().selected(), 1);
    }
}

#[test]
fn commands_lead_to_their_states() {
    let mut session = Session::new(Folder::new());
    open_prompt(&mut session, "n");
    assert_eq!(session.status(), InputStatus::New);
    press(&mut session, Key::Char('x'));
    assert_eq!(session.status(), InputStatus::Empty);

    open_prompt(&mut session, "x");
    assert_eq!(session.status(), InputStatus::Empty);

    open_prompt(&mut session, "");
    press(&mut session, Key::Enter);
    assert_eq!(session.status(), InputStatus::Empty);

    open_prompt(&mut session, "e");
    press(&mut session, Key::Esc);
    assert_eq!(session.status(), InputStatus::Empty);
}

#[test]
fn save_and_quit_are_left_to_the_caller() {
    let mut session = session_on_a_task();
    press(&mut session, Key::Char(' '));
    assert_eq!(press(&mut session, Key::Char('w')), Outcome::Save);
    assert_eq!(session.status(), InputStatus::Empty);

    assert_eq!(press(&mut session, Key::Char('w')), Outcome::Continue);
    assert_eq!(press(&mut session, Key::Char('q')), Outcome::Continue);
    assert_eq!(session.status(), InputStatus::Empty);

    press(&mut session, Key::Char(' '));
    assert_eq!(press(&mut session, Key::Char('q')), Outcome::Quit);
    assert_eq!(session.status(), InputStatus::Controls);
    assert_eq!(session.root().len(), 2);
}

#[test]
fn letters_do_nothing_while_idle() {
    let mut session = session_on_a_task();
    for c in ['q', 'w', 'n', 'e', 'd', 'f', 't', 's', 'Y'] {
        assert_eq!(press(&mut session, Key::Char(c)), Outcome::Continue);
        assert_eq!(session.status(), InputStatus::Empty);
    }
    press(&mut session, Key::Enter);
    press(&mut session, Key::Esc);
    press(&mut session, Key::Other);
    assert_eq!(session.status(), InputStatus::Empty);
    assert_eq!(session.root().len(), 2);
    assert_eq!(session.root().selected(), 1);
    assert_eq!(session.buffer(), "");
}

#[test]
fn arrows_move_the_cursor_while_idle() {
    let mut session = session_on_a_task();
    press(&mut session, Key::Down);
    assert_eq!(session.root().selected(), 1);
    press(&mut session, Key::Up);
    assert_eq!(session.root().selected(), 0);
    press(&mut session, Key::Up);
    assert_eq!(session.root().selected(), 0);
    press(&mut session, Key::Down);
    press(&mut session, Key::Down);
    assert_eq!(session.root().selected(), 1);
}

#[test]
fn right_enters_the_selected_folder_and_left_leaves_it() {
    let mut root = Folder::new();
    let a = root.new_folder("A".to_string());
    a.new_folder("B".to_string());
    let mut session = Session::new(root);

    press(&mut session, Key::Right);
    assert_eq!(session.path(), &vec!["A".to_string()]);
    assert_eq!(session.current_folder().name(), "A");
    press(&mut session, Key::Right);
    assert_eq!(session.path(), &vec!["A".to_string(), "B".to_string()]);
    assert_eq!(session.current_folder().name(), "B");
    press(&mut session, Key::Right);
    assert_eq!(session.path().len(), 2);

    open_prompt(&mut session, "nt");
    commit(&mut session, "deep");
    commit(&mut session, "");
    assert_eq!(session.root().folders()[0].folders()[0].tasks()[0].title, "deep");
    assert_eq!(session.root().len(), 1);

    press(&mut session, Key::Left);
    assert_eq!(session.path(), &vec!["A".to_string()]);
    press(&mut session, Key::Left);
    assert!(session.path().is_empty());
    press(&mut session, Key::Left);
    assert!(session.path().is_empty());
    assert_eq!(session.current_folder().len(), 1);
}

#[test]
fn right_on_a_task_stays_where_it_is() {
    let mut session = session_on_a_task();
    press(&mut session, Key::Right);
    assert!(session.path().is_empty());
}

#[test]
fn entering_the_second_of_two_folders_with_one_name_shows_the_first() {
    let mut root = Folder::new();
    root.new_folder("same".to_string()).new_task(task("in the first", 1));
    root.new_folder("same".to_string());
    root.adjust_selected(1);
    let mut session = Session::new(root);
    press(&mut session, Key::Right);
    assert_eq!(session.path(), &vec!["same".to_string()]);
    assert_eq!(session.current_folder().tasks().len(), 1);
}

#[test]
fn tab_goes_round_the_tabs() {
    let mut session = Session::new(Folder::new());
    assert_eq!(TABS, 3);
    for expected in [1, 2, 0, 1] {
        press(&mut session, Key::Tab);
        assert_eq!(session.tab(), expected);
    }
}

#[test]
fn prompts_have_their_messages() {
    assert_eq!(TaskStep::Title.to_message(), "Please input title");
    assert_eq!(TaskStep::Details.to_message(), "Please input details");
    assert_eq!(TaskStep::Status.to_message(), "Please input status");
    assert_eq!(TaskStep::StatusColor.to_message(), "Please input ansii color code");
    assert_eq!(InputRequestType::NewFolder.to_message(), "Enter the name for the folder");
    assert_eq!(InputRequestType::RenameFolder.to_message(), "Enter the new name for the folder");
    assert_eq!(
        InputRequestType::NewTask { step: TaskStep::Title }.to_message(),
        "New Task: Please input title"
    );
    assert_eq!(
        InputRequestType::EditTask { step: TaskStep::StatusColor }.to_message(),
        "Edit Task: Please input ansii color code"
    );
    assert_eq!(InputRequestType::ConfirmDelete.to_message(), "Are you sure? Y/N");
}

#[test]
fn committed_text_makes_a_task_in_two_steps() {
    let mut session = Session::new(Folder::new());
    let title = InputRequestType::NewTask { step: TaskStep::Title };
    let details = InputRequestType::NewTask { step: TaskStep::Details };

    session.commit(title, "Buy milk".to_string());
    assert_eq!(session.status(), InputStatus::Request(details));
    assert_eq!(session.root().len(), 0);
    assert_eq!(session.pending().title, "Buy milk");

    session.commit(details, "2% milk".to_string());
    assert_eq!(session.status(), InputStatus::Empty);
    assert_eq!(session.root().len(), 1);
    let stored = &session.root().tasks()[0];
    assert_eq!(stored.title, "Buy milk");
    assert_eq!(stored.task, "2% milk");
    assert_eq!(stored.status.status, "Incomplete");
    assert_eq!(stored.status.color, 5);
    assert_eq!(session.pending().title, "");
    assert!(session.is_well_formed());
}

#[test]
fn committed_text_sets_label_then_colour() {
    let mut session = session_on_a_task();
    let label = InputRequestType::EditTask { step: TaskStep::Status };
    let colour = InputRequestType::EditTask { step: TaskStep::StatusColor };

    session.commit(label, "Done".to_string());
    assert_eq!(session.root().tasks()[0].status.status, "Done");
    assert_eq!(session.root().tasks()[0].status.color, 5);
    assert_eq!(session.status(), InputStatus::Request(colour));

    session.commit(colour, "9".to_string());
    assert_eq!(session.root().tasks()[0].status.color, 9);
    assert_eq!(session.status(), InputStatus::Empty);

    session.commit(colour, "abc".to_string());
    assert_eq!(session.root().tasks()[0].status.color, 9);
    assert_eq!(session.status(), InputStatus::Empty);
}

#[test]
fn new_task_request_without_a_prompt_of_its_own_stays() {
    let mut session = session_on_a_task();
    for step in [TaskStep::Status, TaskStep::StatusColor] {
        let request = InputRequestType::NewTask { step };
        session.commit(request, "text".to_string());
        assert_eq!(session.status(), InputStatus::Request(request));
        assert_eq!(session.root().len(), 2);
        assert_eq!(session.pending().title, "");
        assert_eq!(session.buffer(), "");
    }
}

#[test]
fn commit_empties_the_buffer() {
    let mut session = Session::new(Folder::new());
    open_prompt(&mut session, "nf");
    type_text(&mut session, "typed");
    session.commit(InputRequestType::NewFolder, "given".to_string());
    assert_eq!(session.buffer(), "");
    assert_eq!(session.root().folders()[0].name(), "given");
    assert_eq!(session.status(), InputStatus::Empty);
}
