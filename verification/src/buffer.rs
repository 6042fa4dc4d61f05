//! The line-editable text buffer behind every prompt: `tui_input::Input`, with
//! what the rest of the library relies on stated as contracts.

use tui_input::{Input, InputRequest};
use vstd::prelude::*;

verus! {

/// `tui_input::Input`: a line of text and a cursor in it. Nothing of a
/// buffer is seen here but through the contracts below.
#[verifier::external_type_specification]
#[verifier::external_body]
pub struct ExInput(tui_input::Input);

/// A request to change the buffer or to move its cursor.
#[derive(Clone, Copy, Debug, PartialEq, Eq, Structural)]
pub enum Edit {
    SetCursor(usize),
    InsertChar(char),
    GoToPrevChar,
    GoToNextChar,
    GoToPrevWord,
    GoToNextWord,
    GoToStart,
    GoToEnd,
    DeletePrevChar,
    DeleteNextChar,
    DeletePrevWord,
    DeleteNextWord,
    DeleteLine,
    DeleteTillEnd,
}

/// The characters that the buffer holds.
pub uninterp spec fn buffer_text(input: Input) -> Seq<char>;

/// How many characters stand before the buffer's cursor.
pub uninterp spec fn buffer_cursor(input: Input) -> nat;

/// The text and the cursor of a buffer after one edit, given those before it.
pub uninterp spec fn edited(text: Seq<char>, cursor: nat, edit: Edit) -> (Seq<char>, nat);

/// `Input::new` makes a buffer that holds `value`, with the cursor behind its
/// last character.
pub assume_specification[ Input::new ](value: String) -> (input: Input)
    ensures
        buffer_text(input) == value@,
        buffer_cursor(input) == value@.len(),
;

/// `Input::value` is the text that the buffer holds.
pub assume_specification<'a>[ Input::value ](input: &'a Input) -> (text: &'a str)
    ensures
        text@ == buffer_text(*input),
;

/// `Input::handle` applies one request to the buffer. What it does to the
/// text and the cursor depends on those two and on the request alone.
#[verifier::external_body]
pub(crate) fn apply_edit(input: &mut Input, edit: Edit)
    ensures
        (buffer_text(*final(input)), buffer_cursor(*final(input))) == edited(
            buffer_text(*old(input)),
            buffer_cursor(*old(input)),
            edit,
        ),
{
    input.handle(match edit {
        Edit::SetCursor(at) => InputRequest::SetCursor(at),
        Edit::InsertChar(c) => InputRequest::InsertChar(c),
        Edit::GoToPrevChar => InputRequest::GoToPrevChar,
        Edit::GoToNextChar => InputRequest::GoToNextChar,
        Edit::GoToPrevWord => InputRequest::GoToPrevWord,
        Edit::GoToNextWord => InputRequest::GoToNextWord,
        Edit::GoToStart => InputRequest::GoToStart, Edit::GoToEnd => InputRequest::GoToEnd,
        Edit::DeletePrevChar => InputRequest::DeletePrevChar,
        Edit::DeleteNextChar => InputRequest::DeleteNextChar,
        Edit::DeletePrevWord => InputRequest::DeletePrevWord,
        Edit::DeleteNextWord => InputRequest::DeleteNextWord,
        Edit::DeleteLine => InputRequest::DeleteLine,
        Edit::DeleteTillEnd => InputRequest::DeleteTillEnd,
    });
}

} // verus!
