use barsh::ais::{ShellCommand, StreamAccumulator};
use barsh::app::{Action, App, InputMode, Key};
use barsh::exec::CommandError;

fn list(v: &[&str]) -> ShellCommand {
    ShellCommand { commands: v.iter().map(|s| s.to_string()).collect() }
}

fn text(app: &App) -> String {
    app.finalize_selection().unwrap()
}

#[test]
fn new_selects_the_first_candidate() {
    let app = App::new(list(&["ls -la", "pwd"]));
    assert_eq!(app.selected(), Some(0));
    assert_eq!(app.position(), 0);
    assert_eq!(app.input_mode(), InputMode::Normal);
    assert_eq!(app.items().commands.len(), 2);
}

#[test]
fn circular_navigation() {
    let mut app = App::new(list(&["a", "bb", "ccc"]));
    app.next();
    app.next();
    assert_eq!(app.selected(), Some(2));
    assert_eq!(app.position(), 3);
    app.next();
    assert_eq!(app.selected(), Some(0));
    assert_eq!(app.position(), 1);
    app.previous();
    assert_eq!(app.selected(), Some(2));
    app.previous();
    assert_eq!(app.selected(), Some(1));
    assert_eq!(app.position(), 2);
}

#[test]
fn empty_list_safety() {
    let mut app = App::new(ShellCommand::new());
    assert_eq!(app.selected(), None);
    app.next();
    app.previous();
    assert_eq!(app.selected(), None);
    assert_eq!(app.enter_edit_mode(), Err(CommandError::NoSelection));
    assert_eq!(app.input_mode(), InputMode::Normal);
    app.insert_char('x');
    app.delete_char_backward();
    app.move_cursor_left();
    app.move_cursor_right();
    app.exit_edit_mode();
    assert_eq!(app.finalize_selection(), Err(CommandError::NoSelection));
    assert!(matches!(app.execute(), Err(CommandError::NoSelection)));
    for key in [Key::Char('e'), Key::Down, Key::Up, Key::Left, Key::Right, Key::Backspace, Key::Esc, Key::Char('x'), Key::Other] {
        assert_eq!(app.handle_key(key), Action::Continue);
        assert_eq!(app.selected(), None);
        assert_eq!(app.input_mode(), InputMode::Normal);
    }
    assert_eq!(app.handle_key(Key::Enter), Action::Continue);
    assert_eq!(app.handle_key(Key::Char('q')), Action::Quit);
    assert!(app.items().commands.is_empty());
}

#[test]
fn edit_cursor_invariant() {
    let mut app = App::new(list(&["ls -la"]));
    assert_eq!(app.position(), 0);
    assert_eq!(app.enter_edit_mode(), Ok(()));
    for _ in 0..6 {
        app.move_cursor_right();
    }
    assert_eq!(app.position(), 6);
    app.insert_char('x');
    assert_eq!(text(&app), "ls -lax");
    assert_eq!(app.position(), 7);
    app.delete_char_backward();
    assert_eq!(text(&app), "ls -la");
    assert_eq!(app.position(), 6);
}

#[test]
fn backspace_removes_the_character_before_the_cursor() {
    let mut app = App::new(list(&["abcd"]));
    app.enter_edit_mode().unwrap();
    for _ in 0..4 {
        app.move_cursor_right();
    }
    app.move_cursor_left();
    app.move_cursor_left();
    assert_eq!(app.position(), 2);
    app.delete_char_backward();
    assert_eq!(text(&app), "acd");
    assert_eq!(app.position(), 1);
    app.insert_char('Z');
    assert_eq!(text(&app), "aZcd");
    assert_eq!(app.position(), 2);
}

#[test]
fn cursor_stays_within_the_text() {
    let mut app = App::new(list(&["ab"]));
    app.enter_edit_mode().unwrap();
    for _ in 0..5 {
        app.move_cursor_right();
    }
    assert_eq!(app.position(), 2);
    for _ in 0..5 {
        app.move_cursor_left();
    }
    assert_eq!(app.position(), 0);
    app.delete_char_backward();
    assert_eq!(text(&app), "ab");
    assert_eq!(app.position(), 0);
}

#[test]
fn editing_keys_do_nothing_while_browsing() {
    let mut app = App::new(list(&["ab"]));
    app.insert_char('x');
    app.delete_char_backward();
    app.move_cursor_right();
    assert_eq!(text(&app), "ab");
    assert_eq!(app.position(), 0);
}

#[test]
fn multibyte_characters_count_as_one() {
    let mut app = App::new(list(&["héllo"]));
    assert_eq!(app.position(), 0);
    app.enter_edit_mode().unwrap();
    for _ in 0..9 {
        app.move_cursor_right();
    }
    assert_eq!(app.position(), 5);
    app.move_cursor_left();
    app.move_cursor_left();
    app.move_cursor_left();
    app.delete_char_backward();
    assert_eq!(text(&app), "hllo");
}

#[test]
fn reclamping_on_reparse() {
    let mut app = App::new(list(&["a", "b", "c", "d", "eeee"]));
    for _ in 0..4 {
        app.next();
    }
    assert_eq!(app.selected(), Some(4));
    app.replace_items(list(&["x", "yy", "zzz"]), true);
    assert_eq!(app.selected(), Some(2));
    assert_eq!(app.position(), 3);
    assert_eq!(text(&app), "zzz");
}

#[test]
fn replace_without_preserving_clears_the_selection() {
    let mut app = App::new(list(&["a", "b"]));
    app.enter_edit_mode().unwrap();
    app.replace_items(list(&["x"]), false);
    assert_eq!(app.selected(), None);
    assert_eq!(app.input_mode(), InputMode::Normal);
}

#[test]
fn replace_with_an_empty_list_clears_the_selection() {
    let mut app = App::new(list(&["a", "b"]));
    app.enter_edit_mode().unwrap();
    app.replace_items(ShellCommand::new(), true);
    assert_eq!(app.selected(), None);
    assert_eq!(app.input_mode(), InputMode::Normal);
}

#[test]
fn replace_clamps_the_cursor_of_a_kept_selection() {
    let mut app = App::new(list(&["ls -la", "pwd"]));
    app.enter_edit_mode().unwrap();
    for _ in 0..6 {
        app.move_cursor_right();
    }
    assert_eq!(app.position(), 6);
    app.replace_items(list(&["ls", "pwd"]), true);
    assert_eq!(app.selected(), Some(0));
    assert_eq!(app.position(), 2);
    assert_eq!(app.input_mode(), InputMode::Editing);
}

#[test]
fn dispatch_follows_the_key_table() {
    let mut app = App::new(list(&["a", "b"]));
    assert_eq!(app.handle_key(Key::Char('x')), Action::Continue);
    assert_eq!(text(&app), "a");
    assert_eq!(app.handle_key(Key::Down), Action::Continue);
    assert_eq!(app.selected(), Some(1));
    assert_eq!(app.handle_key(Key::Up), Action::Continue);
    assert_eq!(app.selected(), Some(0));
    assert_eq!(app.handle_key(Key::Char('e')), Action::Continue);
    assert_eq!(app.input_mode(), InputMode::Editing);
    assert_eq!(app.handle_key(Key::Char('q')), Action::Continue);
    assert_eq!(text(&app), "aq");
    assert_eq!(app.handle_key(Key::Left), Action::Continue);
    assert_eq!(app.handle_key(Key::Backspace), Action::Continue);
    assert_eq!(text(&app), "q");
    assert_eq!(app.handle_key(Key::Right), Action::Continue);
    assert_eq!(app.position(), 1);
    assert_eq!(app.handle_key(Key::Esc), Action::Continue);
    assert_eq!(app.input_mode(), InputMode::Normal);
    assert_eq!(app.handle_key(Key::Char('q')), Action::Quit);
    assert_eq!(app.handle_key(Key::Enter), Action::Execute);
}

#[test]
fn enter_while_editing_executes_the_edited_text() {
    let mut app = App::new(list(&["echo"]));
    app.handle_key(Key::Char('e'));
    for _ in 0..4 {
        app.handle_key(Key::Right);
    }
    for c in " hi".chars() {
        app.handle_key(Key::Char(c));
    }
    assert_eq!(app.handle_key(Key::Enter), Action::Execute);
    let req = app.execute().unwrap();
    assert_eq!(req.program, "echo");
    assert_eq!(req.args, vec!["hi".to_string()]);
}

#[test]
fn end_to_end_scenario() {
    let mut acc = StreamAccumulator::new();
    let mut app = App::new(ShellCommand::new());
    for chunk in ["ls\n", "ls -la\ncd /", "\n"] {
        let cmds = acc.append(chunk);
        app.replace_items(cmds, true);
    }
    let fin = acc.commands();
    assert_eq!(fin.commands, vec!["ls".to_string(), "ls -la".to_string(), "cd /".to_string()]);
    let mut app = App::new(fin);
    assert_eq!(app.handle_key(Key::Down), Action::Continue);
    assert_eq!(app.handle_key(Key::Enter), Action::Execute);
    assert_eq!(app.finalize_selection(), Ok("ls -la".to_string()));
    let req = app.execute().unwrap();
    assert_eq!(req.program, "ls");
    assert_eq!(req.args, vec!["-la".to_string()]);
}
