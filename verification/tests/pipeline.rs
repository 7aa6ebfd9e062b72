// The pipeline's caching and numbering behaviour: re-running with
// unchanged input, divergence in the middle of a document, skipped blocks,
// and front-matter ordering.

use std::cell::Cell;

use mddux::config::Config;
use mddux::content::Content;
use mddux::document::MdNode;
use mddux::executor::{ExecutionInput, ExecutionOutput, MdduxError};
use mddux::formatter::InsertNode;
use mddux::runner::MdduxState;

fn sh_block(script: &str) -> MdNode {
    MdNode::CodeBlock {
        info: "sh".to_string(),
        literal: script.as_bytes().to_vec(),
    }
}

fn counting_runner<'a>(
    count: &'a Cell<usize>,
    marker: &'a str,
) -> impl Fn(&ExecutionInput) -> Result<ExecutionOutput, MdduxError> + 'a {
    move |input: &ExecutionInput| {
        count.set(count.get() + 1);
        let mut out = marker.as_bytes().to_vec();
        out.extend_from_slice(input.stdin.as_ref());
        Ok(ExecutionOutput {
            status_code: Some(0),
            stdout: Content::Binary(out),
            stderr: Content::Binary(Vec::new()),
        })
    }
}

fn plan(doc: &Vec<MdNode>, config: &Config) -> MdduxState {
    let mut state = MdduxState::from_config(config);
    mddux::parser::parse(&mut state, config, doc).unwrap();
    state
}

#[test]
fn rerun_with_unchanged_input_executes_nothing() {
    let doc = vec![sh_block("echo a\n"), sh_block("echo b\n")];
    let config = Config::system_default();

    let count1 = Cell::new(0);
    let (state1, patch1) = mddux::runner::run(&doc, &config, &counting_runner(&count1, "r1:")).unwrap();
    assert_eq!(count1.get(), 2);

    // Second run over the same document, with the first run's records as
    // the previous state: every output is reused, nothing runs.
    let count2 = Cell::new(0);
    let mut state2 = plan(&doc, &Config::system_default());
    state2
        .execute_if_needed(&Some(state1), &counting_runner(&count2, "r2:"))
        .unwrap();
    assert_eq!(count2.get(), 0);
    assert_eq!(
        state2.executions[0].output.as_ref().unwrap().stdout.as_ref(),
        b"r1:echo a\n"
    );
    assert_eq!(
        state2.executions[1].output.as_ref().unwrap().stdout.as_ref(),
        b"r1:echo b\n"
    );

    // And the rewritten document is identical.
    let patch2 = mddux::formatter::format(&state2, &config, &doc).unwrap();
    assert_eq!(format!("{:?}", patch1), format!("{:?}", patch2));
}

#[test]
fn divergence_invalidates_the_tail() {
    let config = Config::system_default();
    let doc1 = vec![sh_block("echo a\n"), sh_block("echo b\n"), sh_block("echo c\n")];
    let count1 = Cell::new(0);
    let (state1, _) = mddux::runner::run(&doc1, &config, &counting_runner(&count1, "r1:")).unwrap();
    assert_eq!(count1.get(), 3);

    // Only the middle block changed; the first is reused, but the changed
    // block and everything after it re-executes, unchanged input or not.
    let doc2 = vec![sh_block("echo a\n"), sh_block("echo B\n"), sh_block("echo c\n")];
    let count2 = Cell::new(0);
    let mut state2 = plan(&doc2, &Config::system_default());
    state2
        .execute_if_needed(&Some(state1), &counting_runner(&count2, "r2:"))
        .unwrap();
    assert_eq!(count2.get(), 2);
    assert_eq!(
        state2.executions[0].output.as_ref().unwrap().stdout.as_ref(),
        b"r1:echo a\n"
    );
    assert_eq!(
        state2.executions[1].output.as_ref().unwrap().stdout.as_ref(),
        b"r2:echo B\n"
    );
    assert_eq!(
        state2.executions[2].output.as_ref().unwrap().stdout.as_ref(),
        b"r2:echo c\n"
    );
}

#[test]
fn skipped_block_does_not_consume_a_number() {
    let config = Config::system_default();
    let doc = vec![
        sh_block("echo a\n"),
        sh_block("# mddux-skipped: true\necho b\n"),
        sh_block("echo c\n"),
    ];
    let count = Cell::new(0);
    let (state, patch) = mddux::runner::run(&doc, &config, &counting_runner(&count, "r:")).unwrap();
    // The skipped block never runs and keeps no output.
    assert_eq!(count.get(), 2);
    assert!(state.executions[1].output.is_none());
    // Its directive line is stripped from the rendered block.
    assert_eq!(
        patch.blocks[1].replace_literal.as_deref(),
        Some(b"echo b\n".as_slice())
    );
    // Visible numbering: `In [1]`, no caption for the skipped block, then
    // `In [2]` - not `In [3]`.
    assert!(matches!(&patch.blocks[0].before[0], InsertNode::Text(t) if t == b"In [1]:"));
    assert!(patch.blocks[1].before.is_empty());
    assert!(matches!(&patch.blocks[2].before[0], InsertNode::Text(t) if t == b"In [2]:"));
}

#[test]
fn skipped_block_breaks_the_cache_tail() {
    // A skipped block never has cached output, so under position-aligned
    // reuse it counts as a divergence: the blocks after it run again.
    let config = Config::system_default();
    let doc = vec![
        sh_block("echo a\n"),
        sh_block("# mddux-skipped: true\necho b\n"),
        sh_block("echo c\n"),
    ];
    let count1 = Cell::new(0);
    let (state1, _) = mddux::runner::run(&doc, &config, &counting_runner(&count1, "r1:")).unwrap();
    assert_eq!(count1.get(), 2);

    let count2 = Cell::new(0);
    let mut state2 = plan(&doc, &Config::system_default());
    state2
        .execute_if_needed(&Some(state1), &counting_runner(&count2, "r2:"))
        .unwrap();
    // The first block is reused; the skipped block still runs nothing; the
    // block after it is re-executed even though its input is unchanged.
    assert_eq!(count2.get(), 1);
    assert_eq!(
        state2.executions[0].output.as_ref().unwrap().stdout.as_ref(),
        b"r1:echo a\n"
    );
    assert!(state2.executions[1].output.is_none());
    assert_eq!(
        state2.executions[2].output.as_ref().unwrap().stdout.as_ref(),
        b"r2:echo c\n"
    );
}

#[test]
fn front_matter_defines_runners_for_later_blocks_only() {
    let config = Config::system_default();
    let fm = b"mddux:\n  runners:\n    myrun:\n      command: [\"/bin/sh\"]\n".to_vec();
    let doc = vec![
        MdNode::CodeBlock {
            info: "myrun".to_string(),
            literal: b"echo early\n".to_vec(),
        },
        MdNode::FrontMatter(fm),
        MdNode::CodeBlock {
            info: "myrun".to_string(),
            literal: b"echo late\n".to_vec(),
        },
    ];
    let count = Cell::new(0);
    let (state, patch) = mddux::runner::run(&doc, &config, &counting_runner(&count, "r:")).unwrap();
    // The block before the front matter has no runner yet: it is passed
    // through untouched. The block after it is executed.
    assert_eq!(count.get(), 1);
    assert_eq!(state.executions.len(), 1);
    assert_eq!(state.executions[0].input.stdin.as_ref(), b"echo late\n");
    assert!(patch.blocks[0].replace_literal.is_none());
    assert!(patch.blocks[0].before.is_empty() && patch.blocks[0].after.is_empty());
    assert!(matches!(&patch.blocks[1].before[0], InsertNode::Text(t) if t == b"In [1]:"));
    // The reserved key was the whole front matter: nothing of it remains.
    assert_eq!(patch.front_matter.as_deref(), Some(b"".as_slice()));
}

#[test]
fn front_matter_remainder_is_kept_and_defaults_apply() {
    let config = Config::system_default();
    let fm = b"title: demo\nmddux:\n  execution:\n    skipped: true\n".to_vec();
    let doc = vec![MdNode::FrontMatter(fm), sh_block("echo a\n")];
    let count = Cell::new(0);
    let (state, patch) = mddux::runner::run(&doc, &config, &counting_runner(&count, "r:")).unwrap();
    // The environment-level default skips every block.
    assert_eq!(count.get(), 0);
    assert!(state.executions[0].output.is_none());
    // The reserved key is dropped; the rest of the front matter survives,
    // re-emitted with its document markers.
    assert_eq!(
        patch.front_matter.as_deref(),
        Some(b"---\ntitle: demo\n---\n\n".as_slice())
    );
}

#[test]
fn front_matter_runner_carries_its_own_overrides() {
    let config = Config::system_default();
    let fm = b"mddux:\n  runners:\n    quiet:\n      command: [\"/bin/sh\", \"-e\"]\n      format:\n        stdout_info: shell-output\n    off:\n      command: [\"/bin/sh\"]\n      exection:\n        skipped: true\n"
        .to_vec();
    let doc = vec![
        MdNode::FrontMatter(fm),
        MdNode::CodeBlock {
            info: "quiet".to_string(),
            literal: b"echo a\n".to_vec(),
        },
        MdNode::CodeBlock {
            info: "off".to_string(),
            literal: b"echo b\n".to_vec(),
        },
    ];
    let count = Cell::new(0);
    let (state, patch) = mddux::runner::run(&doc, &config, &counting_runner(&count, "r:")).unwrap();
    // The runner's fixed arguments reach the command; its format override
    // tags the injected stdout block; the runner-level execution override
    // skips the second block entirely.
    assert_eq!(count.get(), 1);
    assert_eq!(state.executions[0].input.command.args, vec!["-e".to_string()]);
    assert!(matches!(&patch.blocks[0].after[1], InsertNode::CodeBlock { info, .. }
        if info == b"shell-output"));
    assert!(state.executions[1].output.is_none());
    assert!(patch.blocks[1].before.is_empty());
}

#[test]
fn unusable_reserved_section_changes_nothing_but_is_still_stripped() {
    let config = Config::system_default();
    // `skipped` must be a boolean: a string rejects the whole section, so
    // no default is applied and the block still runs; the reserved key is
    // nevertheless removed from the front matter.
    let fm = b"title: demo\nmddux:\n  execution:\n    skipped: \"yes\"\n".to_vec();
    let doc = vec![MdNode::FrontMatter(fm), sh_block("echo a\n")];
    let count = Cell::new(0);
    let (state, patch) = mddux::runner::run(&doc, &config, &counting_runner(&count, "r:")).unwrap();
    assert_eq!(count.get(), 1);
    assert!(state.executions[0].output.is_some());
    assert_eq!(
        patch.front_matter.as_deref(),
        Some(b"---\ntitle: demo\n---\n\n".as_slice())
    );
}

#[test]
fn caption_template_applies_and_bad_template_is_fatal() {
    let config = Config::system_default();
    let doc = vec![sh_block(
        "# mddux-stdin-caption-format: {type} {code_block_type} [{execution_count}]\necho a\n",
    )];
    let count = Cell::new(0);
    let (_, patch) = mddux::runner::run(&doc, &config, &counting_runner(&count, "r:")).unwrap();
    assert!(matches!(&patch.blocks[0].before[0], InsertNode::Text(t) if t == b"sh In [1]"));

    let doc_bad = vec![sh_block("# mddux-stdin-caption-format: {nosuchvar}\necho a\n")];
    let err = mddux::runner::run(&doc_bad, &config, &counting_runner(&count, "r:")).unwrap_err();
    assert!(matches!(err, MdduxError::CaptionFormat));
}

#[test]
fn invalid_front_matter_is_fatal() {
    let config = Config::system_default();
    let doc = vec![MdNode::FrontMatter(vec![0xff, 0xfe])];
    let err = mddux::runner::run(&doc, &config, &|_i: &ExecutionInput| {
        Ok(ExecutionOutput {
            status_code: Some(0),
            stdout: Content::Binary(Vec::new()),
            stderr: Content::Binary(Vec::new()),
        })
    })
    .unwrap_err();
    assert!(matches!(err, MdduxError::FrontMatterEncoding));

    let doc2 = vec![MdNode::FrontMatter(b"a: [unclosed\n".to_vec())];
    let err2 = mddux::runner::run(&doc2, &config, &|_i: &ExecutionInput| {
        Ok(ExecutionOutput {
            status_code: Some(0),
            stdout: Content::Binary(Vec::new()),
            stderr: Content::Binary(Vec::new()),
        })
    })
    .unwrap_err();
    assert!(matches!(err2, MdduxError::FrontMatterYaml));
}

#[test]
fn spawn_failure_aborts_the_run() {
    let config = Config::system_default();
    let doc = vec![sh_block("echo a\n"), sh_block("echo b\n")];
    let calls = Cell::new(0);
    let failing = |_i: &ExecutionInput| -> Result<ExecutionOutput, MdduxError> {
        calls.set(calls.get() + 1);
        Err(MdduxError::Spawn("no such program".to_string()))
    };
    let err = mddux::runner::run(&doc, &config, &failing).unwrap_err();
    assert!(matches!(err, MdduxError::Spawn(_)));
    // Fatal at the first failure: nothing after it is attempted.
    assert_eq!(calls.get(), 1);
}

#[test]
fn failure_keeps_outputs_already_produced() {
    let config = Config::system_default();
    let doc = vec![sh_block("echo a\n"), sh_block("echo b\n"), sh_block("echo c\n")];
    let mut state = plan(&doc, &config);
    let calls = Cell::new(0);
    let flaky = |input: &ExecutionInput| -> Result<ExecutionOutput, MdduxError> {
        calls.set(calls.get() + 1);
        if calls.get() == 2 {
            Err(MdduxError::Spawn("gone".to_string()))
        } else {
            Ok(ExecutionOutput {
                status_code: Some(0),
                stdout: Content::Binary(input.stdin.as_ref().to_vec()),
                stderr: Content::Binary(Vec::new()),
            })
        }
    };
    let err = state.execute_all(&flaky).unwrap_err();
    assert!(matches!(err, MdduxError::Spawn(_)));
    assert_eq!(calls.get(), 2);
    // The first block's output stands; the failing one and everything
    // after it are left as planned.
    assert_eq!(
        state.executions[0].output.as_ref().unwrap().stdout.as_ref(),
        b"echo a\n"
    );
    assert!(state.executions[1].output.is_none());
    assert!(state.executions[2].output.is_none());
}

#[test]
fn stderr_output_is_injected_with_its_own_caption() {
    let config = Config::system_default();
    let doc = vec![sh_block("echo x\n")];
    let noisy = |_i: &ExecutionInput| -> Result<ExecutionOutput, MdduxError> {
        Ok(ExecutionOutput {
            status_code: Some(1),
            stdout: Content::Binary(b"x\n".to_vec()),
            stderr: Content::Binary(b"oops\n".to_vec()),
        })
    };
    let (_, patch) = mddux::runner::run(&doc, &config, &noisy).unwrap();
    let after = &patch.blocks[0].after;
    assert_eq!(after.len(), 4);
    assert!(matches!(&after[0], InsertNode::Text(t) if t == b"Out [1]:"));
    assert!(matches!(&after[1], InsertNode::CodeBlock { info, literal }
        if info == b"text" && literal == b"x\n"));
    assert!(matches!(&after[2], InsertNode::Text(t) if t == b"Err [1]:"));
    assert!(matches!(&after[3], InsertNode::CodeBlock { info, literal }
        if info == b"text" && literal == b"oops\n"));
}

#[test]
fn hidden_streams_are_left_out() {
    let config = Config::system_default();
    // Hiding stdin detaches the input block; hiding stdout suppresses the
    // output block.
    let doc = vec![
        sh_block("# mddux-stdin-hidden: true\necho a\n"),
        sh_block("# mddux-stdout-hidden: true\necho b\n"),
    ];
    let count = Cell::new(0);
    let (_, patch) = mddux::runner::run(&doc, &config, &counting_runner(&count, "r:")).unwrap();
    let p0 = &patch.blocks[0];
    assert!(p0.detach);
    assert!(p0.replace_literal.is_none());
    assert!(p0.before.is_empty());
    assert_eq!(p0.after.len(), 2);
    let p1 = &patch.blocks[1];
    assert!(!p1.detach);
    assert_eq!(p1.before.len(), 1);
    assert!(p1.after.is_empty());
}

#[test]
fn block_directive_overrides_runner_and_environment_layers() {
    let config = Config::system_default();
    // The environment default (from front matter) skips everything; the
    // block's own directive wins and the block runs after all.
    let fm = b"mddux:\n  execution:\n    skipped: true\n".to_vec();
    let doc = vec![
        MdNode::FrontMatter(fm),
        sh_block("# mddux-skipped: false\necho a\n"),
        sh_block("echo b\n"),
    ];
    let count = Cell::new(0);
    let (state, _) = mddux::runner::run(&doc, &config, &counting_runner(&count, "r:")).unwrap();
    assert_eq!(count.get(), 1);
    assert!(state.executions[0].output.is_some());
    assert!(state.executions[1].output.is_none());
}

#[test]
fn console_runner_tags_stdout_as_console() {
    let config = Config::system_default();
    let doc = vec![MdNode::CodeBlock {
        info: "console".to_string(),
        literal: b"$ echo hi\nhi\n".to_vec(),
    }];
    let fake = |input: &ExecutionInput| -> Result<ExecutionOutput, MdduxError> {
        assert_eq!(input.command.program, "$MDDUX");
        assert!(input.command.program_is_placeholder());
        assert_eq!(input.command.args, vec!["run-console".to_string()]);
        Ok(ExecutionOutput {
            status_code: Some(0),
            stdout: Content::Binary(b"$ echo hi\nhi\n".to_vec()),
            stderr: Content::Binary(Vec::new()),
        })
    };
    let (state, patch) = mddux::runner::run(&doc, &config, &fake).unwrap();
    // The console runner's directive prefix is `$ #`, so plain transcript
    // lines pass through.
    assert_eq!(state.executions[0].input.stdin.as_ref(), b"$ echo hi\nhi\n");
    let after = &patch.blocks[0].after;
    assert!(matches!(&after[1], InsertNode::CodeBlock { info, .. } if info == b"console"));
}
