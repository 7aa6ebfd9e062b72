// The directive parser, configuration overlay and path derivation, on
// concrete values.

use mddux::config::{Config, ExecutionConfig, FormatConfig};
use mddux::content::Content;
use mddux::executor::{Execution, ExecutionCommand, ExecutionInput};
use mddux::runner::MdduxState;

fn sh_runner(config: &Config) -> mddux::config::RunnerConfig {
    config
        .runners
        .as_ref()
        .unwrap()
        .get("sh")
        .unwrap()
        .clone()
}

fn parse_sh(content: &str) -> (String, ExecutionConfig, FormatConfig) {
    let config = Config::system_default();
    let state = MdduxState::from_config(&config);
    let runner = sh_runner(&config);
    mddux::parser::parse_content(&state.environment, &runner, content.to_string())
}

#[test]
fn content_without_directives_roundtrips() {
    let original = "echo a\n  echo b # plain comment\n\necho c\n";
    let (cleaned, ec, fc) = parse_sh(original);
    assert_eq!(cleaned, original);
    assert!(ec.skipped.is_none());
    assert!(fc.stdout_info.is_none());
}

#[test]
fn final_line_without_newline_gains_one() {
    let (cleaned, _, _) = parse_sh("echo a");
    assert_eq!(cleaned, "echo a\n");
}

#[test]
fn directive_lines_are_stripped_and_applied() {
    let original = "# mddux-skipped: TRUE\n#mddux-stdout-info: json\necho a\n";
    let (cleaned, ec, fc) = parse_sh(original);
    assert_eq!(cleaned, "echo a\n");
    assert_eq!(ec.skipped, Some(true));
    assert_eq!(fc.stdout_info.as_deref(), Some("json"));
}

#[test]
fn unknown_directive_keys_are_consumed() {
    let (cleaned, ec, _) = parse_sh("# mddux-no-such-key: 1\necho a\n");
    assert_eq!(cleaned, "echo a\n");
    assert!(ec.skipped.is_none());
}

#[test]
fn comment_without_colon_passes_through() {
    let original = "# just a comment\necho a\n";
    let (cleaned, _, _) = parse_sh(original);
    assert_eq!(cleaned, original);
}

#[test]
fn later_directives_override_earlier_ones() {
    let (_, ec, _) = parse_sh("# mddux-skipped: true\n# mddux-skipped: false\n");
    assert_eq!(ec.skipped, Some(false));
}

#[test]
fn execution_config_overlay_prefers_the_overriding_layer() {
    let mut base = ExecutionConfig::new();
    base.skipped = Some(false);
    let mut over = ExecutionConfig::new();
    over.skipped = Some(true);
    base.apply(&over);
    assert_eq!(base.skipped, Some(true));

    let mut base2 = ExecutionConfig::new();
    base2.skipped = Some(true);
    base2.apply(&ExecutionConfig::new());
    assert_eq!(base2.skipped, Some(true));
}

#[test]
fn format_config_overlay_is_field_by_field() {
    let mut base = FormatConfig::new();
    base.stdout_info = Some("text".to_string());
    base.stderr_hidden = Some(false);
    let mut over = FormatConfig::new();
    over.stdout_info = Some("json".to_string());
    base.apply(&over);
    assert_eq!(base.stdout_info.as_deref(), Some("json"));
    assert_eq!(base.stderr_hidden, Some(false));
}

#[test]
fn insert_with_str_routes_keys() {
    let mut ec = ExecutionConfig::new();
    assert!(ec.insert_with_str("skipped", "True"));
    assert_eq!(ec.skipped, Some(true));
    assert!(!ec.insert_with_str("stdout-info", "json"));

    let mut fc = FormatConfig::new();
    assert!(fc.insert_with_str("stdout-info", "json"));
    assert_eq!(fc.stdout_info.as_deref(), Some("json"));
    assert!(fc.insert_with_str("stdin-hidden", "true"));
    assert_eq!(fc.stdin_hidden, Some(true));
    assert!(!fc.insert_with_str("skipped", "true"));
    assert!(!fc.insert_with_str("bogus", "true"));
}

#[test]
fn system_default_registers_the_builtin_runners() {
    let config = Config::system_default();
    assert_eq!(config.caption, Some(true));
    let runners = config.runners.as_ref().unwrap();
    let sh = runners.get("sh").unwrap();
    assert_eq!(sh.command, vec!["/bin/sh".to_string()]);
    assert_eq!(sh.special_comment_prefix.as_deref(), Some("#"));
    let bash = runners.get("bash").unwrap();
    assert_eq!(bash.command, vec!["/bin/bash".to_string()]);
    let console = runners.get("console").unwrap();
    assert_eq!(
        console.command,
        vec!["$MDDUX".to_string(), "run-console".to_string()]
    );
    assert_eq!(console.special_comment_prefix.as_deref(), Some("$ #"));
    assert_eq!(
        console.format.as_ref().unwrap().stdout_info.as_deref(),
        Some("console")
    );
    assert!(runners.get("python").is_none());
}

#[test]
fn fingerprint_is_a_function_of_the_bytes() {
    // xxHash32 with seed 0 of the empty input.
    assert_eq!(mddux::content::calc_fast_digest(b""), 0x02cc5d05);
    let a = mddux::content::calc_fast_digest(b"echo hi\n");
    let b = mddux::content::calc_fast_digest(b"echo hi\n");
    let c = mddux::content::calc_fast_digest(b"echo ho\n");
    assert_eq!(a, b);
    assert_ne!(a, c);
}

#[test]
fn execution_input_identity() {
    let config = Config::system_default();
    let runner = sh_runner(&config);
    let a = mddux::parser::make_execution_input(&runner, b"echo hi\n".to_vec());
    let b = mddux::parser::make_execution_input(&runner, b"echo hi\n".to_vec());
    let c = mddux::parser::make_execution_input(&runner, b"echo ho\n".to_vec());
    assert_eq!(a.command.program, "/bin/sh");
    assert_eq!(a.stdin_hash, mddux::content::calc_fast_digest(b"echo hi\n"));
    assert!(a == b);
    assert!(a != c);
}

#[test]
fn content_equality_is_by_form_and_contents() {
    let s = Content::String("hi".to_string());
    let b = Content::Binary(b"hi".to_vec());
    assert_eq!(s.as_ref(), b.as_ref());
    assert!(s != b);
    assert!(s == Content::String("hi".to_string()));
    assert!(b == Content::Binary(b"hi".to_vec()));
}

#[test]
fn decimal_formatting() {
    assert_eq!(mddux::text::i32_to_string(0), "0");
    assert_eq!(mddux::text::i32_to_string(42), "42");
    assert_eq!(mddux::text::i32_to_string(-7), "-7");
    assert_eq!(mddux::text::i32_to_string(i32::MAX), "2147483647");
    assert_eq!(mddux::text::i32_to_string(i32::MIN), "-2147483648");
}

#[test]
fn line_splitting_follows_lines_semantics() {
    let lines = mddux::text::split_lines("a\nb\r\nc");
    assert_eq!(lines, vec!["a".to_string(), "b".to_string(), "c".to_string()]);
    let lines2 = mddux::text::split_lines("a\n");
    assert_eq!(lines2, vec!["a".to_string()]);
    let lines3 = mddux::text::split_lines("");
    assert!(lines3.is_empty());
}

#[test]
fn path_derivation() {
    assert_eq!(
        mddux::paths::make_state_path("doc.demo.md", &None, true).as_deref(),
        Some("doc.state.json")
    );
    assert_eq!(
        mddux::paths::make_output_path("dir/doc.demo.md", &None, true).as_deref(),
        Some("dir/doc.md")
    );
    assert_eq!(mddux::paths::make_output_path("doc.demo.md", &None, false), None);
    assert_eq!(
        mddux::paths::make_output_path("doc.demo.md", &Some("out.md".to_string()), false)
            .as_deref(),
        Some("out.md")
    );
    assert_eq!(
        mddux::paths::make_output_path("-", &None, true).as_deref(),
        Some("output.md")
    );
}

#[test]
fn captions_come_from_templates_or_the_default() {
    let execution = Execution {
        execution_count: 3,
        type_: "sh".to_string(),
        input: ExecutionInput {
            command: ExecutionCommand {
                program: "/bin/sh".to_string(),
                args: Vec::new(),
            },
            stdin_hash: 0,
            stdin: mddux::content::Content::Binary(Vec::new()),
        },
        output: None,
    };
    assert_eq!(
        mddux::formatter::make_caption(&None, &execution, "Out").as_deref(),
        Some("Out [3]:")
    );
    assert_eq!(
        mddux::formatter::make_caption(
            &Some("{code_block_type}<{execution_count}>{type}".to_string()),
            &execution,
            "In"
        )
        .as_deref(),
        Some("In<3>sh")
    );
    assert_eq!(
        mddux::formatter::make_caption(&Some("{missing}".to_string()), &execution, "In"),
        None
    );
}
