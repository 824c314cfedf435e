use barsh::ais::{ShellCommand, StreamAccumulator};
use barsh::text::parse_lines;

fn strs(v: &[&str]) -> Vec<String> {
    v.iter().map(|s| s.to_string()).collect()
}

#[test]
fn order_preservation() {
    let c = ShellCommand::from_multiline("b\n\na\n  \nc");
    assert_eq!(c.commands, strs(&["b", "a", "c"]));
}

#[test]
fn lines_are_trimmed() {
    let c = ShellCommand::from_multiline("   ls -la   \n\tcd /tmp\t");
    assert_eq!(c.commands, strs(&["ls -la", "cd /tmp"]));
}

#[test]
fn unicode_whitespace_is_trimmed() {
    let c = ShellCommand::from_multiline("\u{a0}ls\u{3000}\n\u{2003}\n");
    assert_eq!(c.commands, strs(&["ls"]));
}

#[test]
fn inner_whitespace_is_kept() {
    let c = ShellCommand::from_multiline("echo  a\tb");
    assert_eq!(c.commands, strs(&["echo  a\tb"]));
}

#[test]
fn crlf_and_lf_agree() {
    let a = ShellCommand::from_multiline("ls\r\ncd /\r\n");
    let b = ShellCommand::from_multiline("ls\ncd /");
    assert_eq!(a.commands, b.commands);
    assert_eq!(a.commands, strs(&["ls", "cd /"]));
}

#[test]
fn trailing_newline_does_not_matter() {
    assert_eq!(parse_lines("a\nb\n"), parse_lines("a\nb"));
}

#[test]
fn empty_and_blank_input_give_nothing() {
    assert!(ShellCommand::from_multiline("").commands.is_empty());
    assert!(ShellCommand::from_multiline(" \n\t\r\n\n").commands.is_empty());
    assert!(ShellCommand::new().commands.is_empty());
    assert_eq!(ShellCommand::new().len(), 0);
}

#[test]
fn parsing_own_output_again_is_the_same() {
    let first = parse_lines("  git status \r\n\n\t git log --oneline\n  \n  ls  ");
    let joined = first.join("\n");
    assert_eq!(parse_lines(&joined), first);
    assert_eq!(first, strs(&["git status", "git log --oneline", "ls"]));
}

#[test]
fn accumulator_reparses_after_each_chunk() {
    let mut acc = StreamAccumulator::new();
    assert!(acc.commands().commands.is_empty());
    assert_eq!(acc.append("ls\n").commands, strs(&["ls"]));
    assert_eq!(acc.append("ls -la\ncd /").commands, strs(&["ls", "ls -la", "cd /"]));
    assert_eq!(acc.append("\n").commands, strs(&["ls", "ls -la", "cd /"]));
    assert_eq!(acc.commands().commands, strs(&["ls", "ls -la", "cd /"]));
}

#[test]
fn accumulator_joins_a_line_split_over_chunks() {
    let mut acc = StreamAccumulator::new();
    assert_eq!(acc.append("ec").commands, strs(&["ec"]));
    assert_eq!(acc.append("ho hi\npw").commands, strs(&["echo hi", "pw"]));
    assert_eq!(acc.append("d").commands, strs(&["echo hi", "pwd"]));
}

#[test]
fn crlf_between_lines_equals_lf() {
    let a = parse_lines("  ls -la \r\n\r\n cd /tmp\r\npwd");
    let b = parse_lines("  ls -la \n\n cd /tmp\npwd");
    assert_eq!(a, b);
    assert_eq!(a.len(), 3);
}
