use barsh::ais::ShellCommand;
use barsh::app::{App, InputMode};
use barsh::ui::{legend, legend_blinks, row_height};

#[test]
fn legend_for_browsing() {
    let l = legend(InputMode::Normal);
    let text: String = l.iter().map(|p| p.0.as_str()).collect();
    assert_eq!(text, "Press q to exit, Enter to execute, e to start editing.");
    let bold: Vec<&str> = l.iter().filter(|p| p.1).map(|p| p.0.as_str()).collect();
    assert_eq!(bold, vec!["q", "Enter", "e"]);
    assert!(legend_blinks(InputMode::Normal));
}

#[test]
fn legend_for_editing() {
    let l = legend(InputMode::Editing);
    let text: String = l.iter().map(|p| p.0.as_str()).collect();
    assert_eq!(text, "Press Esc to stop editing, Enter to execute");
    let bold: Vec<&str> = l.iter().filter(|p| p.1).map(|p| p.0.as_str()).collect();
    assert_eq!(bold, vec!["Esc", "Enter"]);
    assert!(!legend_blinks(InputMode::Editing));
}

#[test]
fn row_heights() {
    assert_eq!(row_height("ls"), 1);
    assert_eq!(row_height(""), 1);
    assert_eq!(row_height("echo # a # b"), 3);
}

#[test]
fn cursor_cell_while_editing() {
    let mut app = App::new(ShellCommand { commands: vec!["ls".to_string(), "pwd".to_string()] });
    assert_eq!(app.cursor_cell(2, 3), None);
    app.next();
    app.enter_edit_mode().unwrap();
    assert_eq!(app.cursor_cell(2, 3), Some((2 + 1 + 3, 3 + 1 + 2)));
    assert_eq!(app.cursor_cell(u16::MAX, 0), None);
}
