use orgstand::keys::{command_for, scroll_down, scroll_up, Command, Key, View};
use orgstand::types::DateInputType;

fn cmd(view: View, key: Key) -> Command {
    command_for(view, key, false)
}

#[test]
fn browser_keys_follow_the_keyboard_table() {
    let v = View::Browser;
    assert_eq!(cmd(v, Key::Char('q')), Command::Quit);
    assert_eq!(cmd(v, Key::Char('?')), Command::ShowHelp);
    assert_eq!(cmd(v, Key::Char('h')), Command::ShowHelp);
    assert_eq!(cmd(v, Key::Tab), Command::ToggleView);
    assert_eq!(cmd(v, Key::Up), Command::SelectUp);
    assert_eq!(cmd(v, Key::Char('k')), Command::SelectUp);
    assert_eq!(cmd(v, Key::Down), Command::SelectDown);
    assert_eq!(cmd(v, Key::Char('j')), Command::SelectDown);
    assert_eq!(cmd(v, Key::Enter), Command::Open);
    assert_eq!(cmd(v, Key::Char('t')), Command::ToggleKeyword);
    assert_eq!(cmd(v, Key::Char('s')), Command::PickDate(DateInputType::Scheduled));
    assert_eq!(cmd(v, Key::Char('d')), Command::PickDate(DateInputType::Deadline));
    assert_eq!(cmd(v, Key::Char('p')), Command::PickDate(DateInputType::Plain));
    assert_eq!(cmd(v, Key::Char('e')), Command::Edit);
    assert_eq!(cmd(v, Key::Char('g')), Command::ManageTags);
    assert_eq!(cmd(v, Key::Char('c')), Command::Capture);
    assert_eq!(cmd(v, Key::Char('n')), Command::NewNote);
    assert_eq!(cmd(v, Key::Char('x')), Command::AskDelete);
    assert_eq!(cmd(v, Key::Delete), Command::AskDelete);
    assert_eq!(cmd(v, Key::Char('z')), Command::Nothing);
    assert_eq!(cmd(v, Key::Esc), Command::Nothing);
}

#[test]
fn viewer_q_and_esc_return_to_the_browser() {
    let v = View::Viewer;
    assert_eq!(cmd(v, Key::Char('q')), Command::Back);
    assert_eq!(cmd(v, Key::Esc), Command::Back);
    assert_eq!(cmd(v, Key::Up), Command::ScrollUp);
    assert_eq!(cmd(v, Key::Char('j')), Command::ScrollDown);
    assert_eq!(cmd(v, Key::Char('t')), Command::ToggleKeyword);
    assert_eq!(cmd(v, Key::Char('d')), Command::PickDate(DateInputType::Deadline));
    assert_eq!(cmd(v, Key::Char('e')), Command::Edit);
    assert_eq!(cmd(v, Key::Tab), Command::Nothing);
}

#[test]
fn date_picker_arrows_move_the_day_or_the_time() {
    let day = View::DateInput { editing_time: false };
    assert_eq!(cmd(day, Key::Up), Command::MoveDay(-7));
    assert_eq!(cmd(day, Key::Down), Command::MoveDay(7));
    assert_eq!(cmd(day, Key::Left), Command::MoveDay(-1));
    assert_eq!(cmd(day, Key::Char('l')), Command::MoveDay(1));
    assert_eq!(cmd(day, Key::Char('<')), Command::ChangeMonth(-1));
    assert_eq!(cmd(day, Key::PageDown), Command::ChangeMonth(1));
    assert_eq!(cmd(day, Key::Enter), Command::SubmitDate);
    assert_eq!(cmd(day, Key::Esc), Command::CancelDate);
    assert_eq!(cmd(day, Key::Tab), Command::ToggleTimeEdit);

    let time = View::DateInput { editing_time: true };
    assert_eq!(cmd(time, Key::Up), Command::AdjustTime(1, 0));
    assert_eq!(cmd(time, Key::Char('j')), Command::AdjustTime(-1, 0));
    assert_eq!(cmd(time, Key::Left), Command::AdjustTime(0, -1));
    assert_eq!(cmd(time, Key::Right), Command::AdjustTime(0, 1));
    assert_eq!(cmd(time, Key::PageUp), Command::Nothing);
    assert_eq!(cmd(time, Key::Char('>')), Command::Nothing);
}

#[test]
fn editor_saves_on_esc_or_control_s() {
    assert_eq!(cmd(View::Editor, Key::Esc), Command::SaveEdit);
    assert_eq!(command_for(View::Editor, Key::Char('s'), true), Command::SaveEdit);
    assert_eq!(cmd(View::Editor, Key::Char('s')), Command::TypeText);
    assert_eq!(cmd(View::Editor, Key::Enter), Command::TypeText);
}

#[test]
fn tag_keys_in_list_and_edit_field() {
    let list = View::Tags { editing: false };
    assert_eq!(cmd(list, Key::Char('k')), Command::SelectUp);
    assert_eq!(cmd(list, Key::Down), Command::SelectDown);
    assert_eq!(cmd(list, Key::Enter), Command::EditTag);
    assert_eq!(cmd(list, Key::Char('a')), Command::AddTag);
    assert_eq!(cmd(list, Key::Char('n')), Command::AddTag);
    assert_eq!(cmd(list, Key::Char('x')), Command::RemoveTag);
    assert_eq!(cmd(list, Key::Delete), Command::RemoveTag);
    assert_eq!(cmd(list, Key::Esc), Command::SaveTags);

    let field = View::Tags { editing: true };
    assert_eq!(cmd(field, Key::Enter), Command::CommitTag);
    assert_eq!(cmd(field, Key::Esc), Command::CancelTag);
    assert_eq!(cmd(field, Key::Char('x')), Command::TypeText);
}

#[test]
fn capture_and_help_keys() {
    assert_eq!(cmd(View::QuickCapture, Key::Enter), Command::SaveCapture);
    assert_eq!(cmd(View::QuickCapture, Key::Esc), Command::Back);
    assert_eq!(cmd(View::QuickCapture, Key::Char('q')), Command::TypeText);
    assert_eq!(cmd(View::Help, Key::Char('q')), Command::Back);
    assert_eq!(cmd(View::Help, Key::Esc), Command::Back);
    assert_eq!(cmd(View::Help, Key::Char('?')), Command::Back);
    assert_eq!(cmd(View::Help, Key::Char('k')), Command::ScrollUp);
    assert_eq!(cmd(View::Help, Key::Down), Command::ScrollDown);
}

#[test]
fn vi_keys_match_arrows_outside_text_fields() {
    for v in [
        View::Browser,
        View::Viewer,
        View::DateInput { editing_time: false },
        View::DateInput { editing_time: true },
        View::Tags { editing: false },
        View::Help,
    ] {
        assert_eq!(cmd(v, Key::Char('k')), cmd(v, Key::Up));
        assert_eq!(cmd(v, Key::Char('j')), cmd(v, Key::Down));
    }
}

#[test]
fn scrolling_stops_at_the_ends() {
    assert_eq!(scroll_up(0), 0);
    assert_eq!(scroll_up(5), 4);
    assert_eq!(scroll_down(5), 6);
    assert_eq!(scroll_down(u16::MAX), u16::MAX);
}

#[test]
fn deleting_asks_first() {
    let q = View::ConfirmDelete;
    assert_eq!(cmd(q, Key::Char('y')), Command::Delete);
    assert_eq!(cmd(q, Key::Char('n')), Command::CancelDelete);
    assert_eq!(cmd(q, Key::Esc), Command::CancelDelete);
    assert_eq!(cmd(q, Key::Enter), Command::CancelDelete);
    assert_eq!(cmd(q, Key::Char('x')), Command::CancelDelete);
    assert_eq!(command_for(q, Key::Char('y'), true), Command::Delete);
    for v in [
        View::Browser,
        View::Viewer,
        View::DateInput { editing_time: false },
        View::Editor,
        View::Tags { editing: false },
        View::QuickCapture,
        View::Help,
    ] {
        assert_ne!(cmd(v, Key::Char('y')), Command::Delete);
        assert_ne!(cmd(v, Key::Char('x')), Command::Delete);
        assert_ne!(cmd(v, Key::Delete), Command::Delete);
    }
}
