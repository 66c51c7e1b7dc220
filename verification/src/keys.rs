//! The key bindings: what a key press does in each view.

use vstd::prelude::*;
use crate::types::DateInputType;

verus! {

/// A key press, as the views read it.
#[derive(Clone, Copy, Debug, PartialEq, Eq, Structural)]
pub enum Key {
    Char(char),
    Up,
    Down,
    Left,
    Right,
    Enter,
    Esc,
    Tab,
    Delete,
    PageUp,
    PageDown,
    Other,
}

/// The view that is open, with what decides how it reads keys.
#[derive(Clone, Copy, Debug, PartialEq, Eq, Structural)]
pub enum View {
    Browser,
    Viewer,
    DateInput { editing_time: bool },
    Editor,
    Tags { editing: bool },
    QuickCapture,
    Help,
    /// The question whether to delete the selected entry.
    ConfirmDelete,
}

/// What a key press asks for.
#[derive(Clone, Copy, Debug, PartialEq, Eq, Structural)]
pub enum Command {
    Nothing,
    Quit,
    ToggleView,
    SelectUp,
    SelectDown,
    Open,
    ToggleKeyword,
    PickDate(DateInputType),
    Edit,
    ManageTags,
    Capture,
    NewNote,
    /// Ask whether to delete the selected entry.
    AskDelete,
    /// Delete the entry the question is about.
    Delete,
    /// Keep the entry the question is about.
    CancelDelete,
    ShowHelp,
    Back,
    ScrollUp,
    ScrollDown,
    SubmitDate,
    CancelDate,
    ToggleTimeEdit,
    MoveDay(i64),
    AdjustTime(i32, i32),
    ChangeMonth(i32),
    SaveEdit,
    TypeText,
    EditTag,
    AddTag,
    RemoveTag,
    SaveTags,
    CommitTag,
    CancelTag,
    SaveCapture,
}

/// Up, or `k`.
pub open spec fn is_up(key: Key) -> bool {
    key == Key::Up || key == Key::Char('k')
}

/// Down, or `j`.
pub open spec fn is_down(key: Key) -> bool {
    key == Key::Down || key == Key::Char('j')
}

/// Left, or `h`.
pub open spec fn is_left(key: Key) -> bool {
    key == Key::Left || key == Key::Char('h')
}

/// Right, or `l`.
pub open spec fn is_right(key: Key) -> bool {
    key == Key::Right || key == Key::Char('l')
}

/// The kind of date a key sets: `s` scheduled, `d` deadline, `p` plain.
pub open spec fn date_key(key: Key) -> Option<DateInputType> {
    if key == Key::Char('s') {
        Some(DateInputType::Scheduled)
    } else if key == Key::Char('d') {
        Some(DateInputType::Deadline)
    } else if key == Key::Char('p') {
        Some(DateInputType::Plain)
    } else {
        None
    }
}

/// The keys of the entry list.
pub open spec fn browser_command(key: Key) -> Command {
    if key == Key::Char('q') {
        Command::Quit
    } else if key == Key::Tab {
        Command::ToggleView
    } else if is_up(key) {
        Command::SelectUp
    } else if is_down(key) {
        Command::SelectDown
    } else if key == Key::Enter {
        Command::Open
    } else if key == Key::Char('t') {
        Command::ToggleKeyword
    } else if date_key(key) is Some {
        Command::PickDate(date_key(key)->0)
    } else if key == Key::Char('e') {
        Command::Edit
    } else if key == Key::Char('g') {
        Command::ManageTags
    } else if key == Key::Char('c') {
        Command::Capture
    } else if key == Key::Char('n') {
        Command::NewNote
    } else if key == Key::Char('x') || key == Key::Delete {
        Command::AskDelete
    } else if key == Key::Char('?') || key == Key::Char('h') {
        Command::ShowHelp
    } else {
        Command::Nothing
    }
}

/// The keys of the entry viewer: `q` and Esc go back to the list.
pub open spec fn viewer_command(key: Key) -> Command {
    if key == Key::Char('q') || key == Key::Esc {
        Command::Back
    } else if key == Key::Char('t') {
        Command::ToggleKeyword
    } else if date_key(key) is Some {
        Command::PickDate(date_key(key)->0)
    } else if key == Key::Char('e') {
        Command::Edit
    } else if is_up(key) {
        Command::ScrollUp
    } else if is_down(key) {
        Command::ScrollDown
    } else {
        Command::Nothing
    }
}

/// The keys of the date picker: the arrows move the day (by a week up and
/// down) or, while the time is edited, change hours (up and down) and minutes
/// (left and right); `<` and `>` change the month while the day is edited.
pub open spec fn date_input_command(key: Key, editing_time: bool) -> Command {
    if key == Key::Enter {
        Command::SubmitDate
    } else if key == Key::Esc {
        Command::CancelDate
    } else if key == Key::Tab {
        Command::ToggleTimeEdit
    } else if is_up(key) {
        if editing_time { Command::AdjustTime(1i32, 0i32) } else { Command::MoveDay(-7i64) }
    } else if is_down(key) {
        if editing_time { Command::AdjustTime(-1i32, 0i32) } else { Command::MoveDay(7i64) }
    } else if is_left(key) {
        if editing_time { Command::AdjustTime(0i32, -1i32) } else { Command::MoveDay(-1i64) }
    } else if is_right(key) {
        if editing_time { Command::AdjustTime(0i32, 1i32) } else { Command::MoveDay(1i64) }
    } else if key == Key::Char('<') || key == Key::PageUp {
        if editing_time { Command::Nothing } else { Command::ChangeMonth(-1i32) }
    } else if key == Key::Char('>') || key == Key::PageDown {
        if editing_time { Command::Nothing } else { Command::ChangeMonth(1i32) }
    } else {
        Command::Nothing
    }
}

/// The keys of the text editor: Esc or Ctrl+S saves, anything else is typed.
pub open spec fn editor_command(key: Key, control: bool) -> Command {
    if key == Key::Esc || (key == Key::Char('s') && control) {
        Command::SaveEdit
    } else {
        Command::TypeText
    }
}

/// The keys of the tag list, and of the field a tag is edited in.
pub open spec fn tags_command(key: Key, editing: bool) -> Command {
    if editing {
        if key == Key::Enter {
            Command::CommitTag
        } else if key == Key::Esc {
            Command::CancelTag
        } else {
            Command::TypeText
        }
    } else if is_up(key) {
        Command::SelectUp
    } else if is_down(key) {
        Command::SelectDown
    } else if key == Key::Enter {
        Command::EditTag
    } else if key == Key::Char('a') || key == Key::Char('n') {
        Command::AddTag
    } else if key == Key::Char('x') || key == Key::Delete {
        Command::RemoveTag
    } else if key == Key::Esc {
        Command::SaveTags
    } else {
        Command::Nothing
    }
}

/// The keys of the quick capture field.
pub open spec fn capture_command(key: Key) -> Command {
    if key == Key::Enter {
        Command::SaveCapture
    } else if key == Key::Esc {
        Command::Back
    } else {
        Command::TypeText
    }
}

/// The keys of the help screen.
pub open spec fn help_command(key: Key) -> Command {
    if key == Key::Char('q') || key == Key::Esc || key == Key::Char('?') {
        Command::Back
    } else if is_up(key) {
        Command::ScrollUp
    } else if is_down(key) {
        Command::ScrollDown
    } else {
        Command::Nothing
    }
}

/// The keys of the question whether to delete an entry: `y` deletes it, any
/// other key keeps it.
pub open spec fn confirm_command(key: Key) -> Command {
    if key == Key::Char('y') {
        Command::Delete
    } else {
        Command::CancelDelete
    }
}

/// What `key` (with Control held when `control`) asks for in `view`.
pub open spec fn command_of(view: View, key: Key, control: bool) -> Command {
    match view {
        View::Browser => browser_command(key),
        View::Viewer => viewer_command(key),
        View::DateInput { editing_time } => date_input_command(key, editing_time),
        View::Editor => editor_command(key, control),
        View::Tags { editing } => tags_command(key, editing),
        View::QuickCapture => capture_command(key),
        View::Help => help_command(key),
        View::ConfirmDelete => confirm_command(key),
    }
}

fn is_up_key(key: Key) -> (r: bool)
    ensures
        r == is_up(key),
{
    key == Key::Up || key == Key::Char('k')
}

fn is_down_key(key: Key) -> (r: bool)
    ensures
        r == is_down(key),
{
    key == Key::Down || key == Key::Char('j')
}

fn is_left_key(key: Key) -> (r: bool)
    ensures
        r == is_left(key),
{
    key == Key::Left || key == Key::Char('h')
}

fn is_right_key(key: Key) -> (r: bool)
    ensures
        r == is_right(key),
{
    key == Key::Right || key == Key::Char('l')
}

fn date_key_of(key: Key) -> (r: Option<DateInputType>)
    ensures
        r == date_key(key),
{
    if key == Key::Char('s') {
        Some(DateInputType::Scheduled)
    } else if key == Key::Char('d') {
        Some(DateInputType::Deadline)
    } else if key == Key::Char('p') {
        Some(DateInputType::Plain)
    } else {
        None
    }
}

fn browser_key(key: Key) -> (c: Command)
    ensures
        c == browser_command(key),
{
    let date = date_key_of(key);
    if key == Key::Char('q') {
        Command::Quit
    } else if key == Key::Tab {
        Command::ToggleView
    } else if is_up_key(key) {
        Command::SelectUp
    } else if is_down_key(key) {
        Command::SelectDown
    } else if key == Key::Enter {
        Command::Open
    } else if key == Key::Char('t') {
        Command::ToggleKeyword
    } else if let Some(kind) = date {
        Command::PickDate(kind)
    } else if key == Key::Char('e') {
        Command::Edit
    } else if key == Key::Char('g') {
        Command::ManageTags
    } else if key == Key::Char('c') {
        Command::Capture
    } else if key == Key::Char('n') {
        Command::NewNote
    } else if key == Key::Char('x') || key == Key::Delete {
        Command::AskDelete
    } else if key == Key::Char('?') || key == Key::Char('h') {
        Command::ShowHelp
    } else {
        Command::Nothing
    }
}

fn viewer_key(key: Key) -> (c: Command)
    ensures
        c == viewer_command(key),
{
    let date = date_key_of(key);
    if key == Key::Char('q') || key == Key::Esc {
        Command::Back
    } else if key == Key::Char('t') {
        Command::ToggleKeyword
    } else if let Some(kind) = date {
        Command::PickDate(kind)
    } else if key == Key::Char('e') {
        Command::Edit
    } else if is_up_key(key) {
        Command::ScrollUp
    } else if is_down_key(key) {
        Command::ScrollDown
    } else {
        Command::Nothing
    }
}

fn date_input_key(key: Key, editing_time: bool) -> (c: Command)
    ensures
        c == date_input_command(key, editing_time),
{
    if key == Key::Enter {
        Command::SubmitDate
    } else if key == Key::Esc {
        Command::CancelDate
    } else if key == Key::Tab {
        Command::ToggleTimeEdit
    } else if is_up_key(key) {
        if editing_time { Command::AdjustTime(1, 0) } else { Command::MoveDay(-7) }
    } else if is_down_key(key) {
        if editing_time { Command::AdjustTime(-1, 0) } else { Command::MoveDay(7) }
    } else if is_left_key(key) {
        if editing_time { Command::AdjustTime(0, -1) } else { Command::MoveDay(-1) }
    } else if is_right_key(key) {
        if editing_time { Command::AdjustTime(0, 1) } else { Command::MoveDay(1) }
    } else if key == Key::Char('<') || key == Key::PageUp {
        if editing_time { Command::Nothing } else { Command::ChangeMonth(-1) }
    } else if key == Key::Char('>') || key == Key::PageDown {
        if editing_time { Command::Nothing } else { Command::ChangeMonth(1) }
    } else {
        Command::Nothing
    }
}

fn tags_key(key: Key, editing: bool) -> (c: Command)
    ensures
        c == tags_command(key, editing),
{
    if editing {
        if key == Key::Enter {
            Command::CommitTag
        } else if key == Key::Esc {
            Command::CancelTag
        } else {
            Command::TypeText
        }
    } else if is_up_key(key) {
        Command::SelectUp
    } else if is_down_key(key) {
        Command::SelectDown
    } else if key == Key::Enter {
        Command::EditTag
    } else if key == Key::Char('a') || key == Key::Char('n') {
        Command::AddTag
    } else if key == Key::Char('x') || key == Key::Delete {
        Command::RemoveTag
    } else if key == Key::Esc {
        Command::SaveTags
    } else {
        Command::Nothing
    }
}

/// What `key` (with Control held when `control`) asks for in `view`.
pub fn command_for(view: View, key: Key, control: bool) -> (c: Command)
    ensures
        c == command_of(view, key, control),
{
    match view {
        View::Browser => browser_key(key),
        View::Viewer => viewer_key(key),
        View::DateInput { editing_time } => date_input_key(key, editing_time),
        View::Editor => {
            if key == Key::Esc || (key == Key::Char('s') && control) {
                Command::SaveEdit
            } else {
                Command::TypeText
            }
        },
        View::Tags { editing } => tags_key(key, editing),
        View::QuickCapture => {
            if key == Key::Enter {
                Command::SaveCapture
            } else if key == Key::Esc {
                Command::Back
            } else {
                Command::TypeText
            }
        },
        View::ConfirmDelete => {
            if key == Key::Char('y') {
                Command::Delete
            } else {
                Command::CancelDelete
            }
        },
        View::Help => {
            if key == Key::Char('q') || key == Key::Esc || key == Key::Char('?') {
                Command::Back
            } else if is_up_key(key) {
                Command::ScrollUp
            } else if is_down_key(key) {
                Command::ScrollDown
            } else {
                Command::Nothing
            }
        },
    }
}

/// The scroll offset one line up, stopping at the top.
pub fn scroll_up(scroll: u16) -> (r: u16)
    ensures
        r == if scroll == 0 { 0 } else { scroll - 1 },
{
    if scroll == 0 { 0 } else { scroll - 1 }
}

/// The scroll offset one line down, stopping at the largest offset.
pub fn scroll_down(scroll: u16) -> (r: u16)
    ensures
        r == if scroll == u16::MAX { u16::MAX as int } else { scroll + 1 },
{
    if scroll == u16::MAX { u16::MAX } else { scroll + 1 }
}

} // verus!
