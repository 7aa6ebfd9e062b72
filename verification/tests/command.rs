// The two end-to-end flows: executing a document's code blocks and
// rewriting the document, and replaying a console transcript. The original
// project's fixture files are not part of this crate, so the documents are
// built inline; the runner subprocess is stood in for by a closure so the
// expected output is exact.

use mddux::config::Config;
use mddux::content::Content;
use mddux::document::MdNode;
use mddux::executor::{ExecutionInput, ExecutionOutput, MdduxError};
use mddux::formatter::InsertNode;

fn echo_runner(input: &ExecutionInput) -> Result<ExecutionOutput, MdduxError> {
    // Stands in for /bin/sh: "executes" the piped script by echoing what an
    // `echo` line would print.
    let stdin = String::from_utf8(input.stdin.as_ref().to_vec()).unwrap();
    let mut out = String::new();
    for line in stdin.lines() {
        if let Some(rest) = line.trim().strip_prefix("echo ") {
            out.push_str(rest);
            out.push('\n');
        }
    }
    Ok(ExecutionOutput {
        status_code: Some(0),
        stdout: Content::Binary(out.into_bytes()),
        stderr: Content::Binary(Vec::new()),
    })
}

#[test]
fn test_run() {
    let doc = vec![
        MdNode::Other,
        MdNode::CodeBlock {
            info: "sh".to_string(),
            literal: b"echo hi\n".to_vec(),
        },
        MdNode::Other,
        MdNode::CodeBlock {
            info: "rust".to_string(),
            literal: b"fn main() {}\n".to_vec(),
        },
    ];
    let config = Config::system_default();
    let (state, patch) = mddux::runner::run(&doc, &config, &echo_runner).unwrap();

    assert_eq!(state.executions.len(), 1);
    assert_eq!(state.executions[0].execution_count, 1);
    assert_eq!(state.executions[0].type_, "sh");
    assert_eq!(state.executions[0].input.command.program, "/bin/sh");
    assert_eq!(state.executions[0].input.command.args.len(), 0);
    assert_eq!(state.executions[0].input.stdin.as_ref(), b"echo hi\n");
    let output = state.executions[0].output.as_ref().unwrap();
    assert_eq!(output.status_code, Some(0));
    assert_eq!(output.stdout.as_ref(), b"hi\n");
    assert_eq!(output.stderr.as_ref(), b"");

    // One patch per code block; the unexecuted block is untouched.
    assert_eq!(patch.blocks.len(), 2);
    let p0 = &patch.blocks[0];
    assert_eq!(p0.replace_literal.as_deref(), Some(b"echo hi\n".as_slice()));
    assert!(!p0.detach);
    assert_eq!(p0.before.len(), 1);
    assert!(matches!(&p0.before[0], InsertNode::Text(t) if t == b"In [1]:"));
    assert_eq!(p0.after.len(), 2);
    assert!(matches!(&p0.after[0], InsertNode::Text(t) if t == b"Out [1]:"));
    assert!(
        matches!(&p0.after[1], InsertNode::CodeBlock { info, literal }
            if info == b"text" && literal == b"hi\n")
    );
    let p1 = &patch.blocks[1];
    assert!(p1.replace_literal.is_none());
    assert!(!p1.detach);
    assert!(p1.before.is_empty() && p1.after.is_empty());
    assert!(patch.front_matter.is_none());
}

#[test]
fn test_run_console() {
    let lines = vec!["$ echo hi".to_string(), "hi".to_string()];
    let doc = mddux::console::parse_lines_as_document(&lines);
    assert_eq!(doc.entries.len(), 1);
    assert_eq!(doc.entries[0].command, " echo hi");
    assert_eq!(doc.entries[0].expected.as_deref(), Some("hi\n"));

    let echo = mddux::console::entry_echo(&doc.entries[0]);
    assert_eq!(echo, "$ echo hi\n");

    // The shell's raw capture carries carriage returns and colour escapes;
    // normalization strips them and the expectation matches.
    let (actual, mismatch) =
        mddux::console::replay_output(&doc.entries[0], "\u{1b}[32mhi\u{1b}[0m\r\n");
    assert_eq!(actual, "hi\n");
    assert!(!mismatch);
}
