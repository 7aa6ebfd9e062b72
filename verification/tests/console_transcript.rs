// The console transcript grammar, output normalization, and a replay
// against a real interactive shell.

use mddux::console::{normalize_console_output, parse_lines_as_document, replay_output};

fn lines(v: &[&str]) -> Vec<String> {
    v.iter().map(|s| s.to_string()).collect()
}

#[test]
fn transcript_single_command_with_output() {
    let doc = parse_lines_as_document(&lines(&["$ echo hi", "hi"]));
    assert_eq!(doc.entries.len(), 1);
    assert_eq!(doc.entries[0].command, " echo hi");
    assert_eq!(doc.entries[0].expected.as_deref(), Some("hi\n"));
}

#[test]
fn transcript_command_without_output_has_no_expectation() {
    let doc = parse_lines_as_document(&lines(&["$ true"]));
    assert_eq!(doc.entries.len(), 1);
    assert_eq!(doc.entries[0].expected, None);
}

#[test]
fn transcript_continuation_lines_join_the_command() {
    let doc = parse_lines_as_document(&lines(&["$ echo a \\", "b", "out"]));
    assert_eq!(doc.entries.len(), 1);
    assert_eq!(doc.entries[0].command, " echo a \nb");
    assert_eq!(doc.entries[0].expected.as_deref(), Some("out\n"));
}

#[test]
fn transcript_multiple_entries_split_at_dollar_lines() {
    let doc = parse_lines_as_document(&lines(&[
        "$ echo a", "a", "$ echo b", "b1", "b2", "$ true",
    ]));
    assert_eq!(doc.entries.len(), 3);
    assert_eq!(doc.entries[0].command, " echo a");
    assert_eq!(doc.entries[0].expected.as_deref(), Some("a\n"));
    assert_eq!(doc.entries[1].expected.as_deref(), Some("b1\nb2\n"));
    assert_eq!(doc.entries[2].expected, None);
}

#[test]
fn transcript_leading_output_lines_are_dropped() {
    // Output lines before any command belong to no entry.
    let doc = parse_lines_as_document(&lines(&["stray", "$ echo a", "a"]));
    assert_eq!(doc.entries.len(), 1);
    assert_eq!(doc.entries[0].command, " echo a");
}

#[test]
fn normalization_strips_colour_escapes_and_carriage_returns() {
    assert_eq!(normalize_console_output("plain\r\n"), "plain\n");
    assert_eq!(
        normalize_console_output("\u{1b}[1;32mgreen\u{1b}[0m\r\n"),
        "green\n"
    );
    // Escapes that are not colour codes stay.
    assert_eq!(normalize_console_output("\u{1b}[2Jx"), "\u{1b}[2Jx");
    assert_eq!(normalize_console_output("a\rb"), "ab");
}

#[test]
fn mismatch_is_reported_but_only_as_a_flag() {
    let doc = parse_lines_as_document(&lines(&["$ echo hi", "bye"]));
    let (actual, mismatch) = replay_output(&doc.entries[0], "hi\r\n");
    assert_eq!(actual, "hi\n");
    assert!(mismatch);
    let (_, ok_mismatch) = replay_output(&doc.entries[0], "bye\r\n");
    assert!(!ok_mismatch);
}

#[test]
fn replay_against_a_real_shell() {
    // Drives a real interactive bash through the transcript protocol, as
    // the console runner does: send the command, wait for the prompt,
    // normalize what came back, compare.
    let transcript = parse_lines_as_document(&lines(&["$ echo hi", "hi"]));
    let mut p = match rexpect::spawn_bash(Some(10_000)) {
        Ok(p) => p,
        Err(_) => {
            // No usable pty in this environment; the normalization and
            // comparison logic is covered above.
            return;
        }
    };
    p.execute("bind 'set enable-bracketed-paste off'", "").unwrap();
    p.wait_for_prompt().unwrap();
    let mut echoed = String::new();
    for entry in transcript.entries.iter() {
        echoed.push_str(&mddux::console::entry_echo(entry));
        p.execute(&entry.command, "").unwrap();
        let raw = p.wait_for_prompt().unwrap();
        let (actual, mismatch) = replay_output(entry, &raw);
        assert_eq!(actual, "hi\n");
        assert!(!mismatch);
        echoed.push_str(&actual);
    }
    p.execute("exit", "").unwrap();
    assert_eq!(echoed, "$ echo hi\nhi\n");
}
