//! Executions: the planned invocation of a runner against one block's
//! cleaned content, its structural identity used by the incremental cache,
//! and the capability-driven subprocess step.

use vstd::prelude::*;

use crate::config::{ExecutionConfig, FormatConfig, Runners};
use crate::content::Content;

verus! {

/// Why a run was abandoned. Fatal: no partial output is produced once one
/// of these is reported.
#[derive(Clone, Debug)]
pub enum MdduxError {
    /// The document's front matter is not valid UTF-8.
    FrontMatterEncoding,
    /// The document's front matter is not parseable YAML.
    FrontMatterYaml,
    /// The retained front matter could not be re-emitted.
    FrontMatterEmit,
    /// A configured caption template was rejected by the formatter.
    CaptionFormat,
    /// Spawning or draining a subprocess failed; the message says how.
    Spawn(String),
}

/// Document-scoped execution state: defaults plus the runner registry,
/// seeded from built-ins and grown by front-matter directives.
#[derive(Debug)]
pub struct ExecutionEnvironment {
    pub execution: ExecutionConfig,
    pub format: FormatConfig,
    pub runners: Runners,
}

/// The ghost image of an `ExecutionEnvironment`.
#[verifier::ext_equal]
pub struct ExecutionEnvironmentV {
    pub execution: ExecutionConfig,
    pub format: crate::config::FormatConfigV,
    pub runners: Seq<(Seq<char>, crate::config::RunnerConfigV)>,
}

impl View for ExecutionEnvironment {
    type V = ExecutionEnvironmentV;

    open spec fn view(&self) -> ExecutionEnvironmentV {
        ExecutionEnvironmentV {
            execution: self.execution,
            format: self.format@,
            runners: self.runners@,
        }
    }
}

impl Clone for ExecutionEnvironment {
    fn clone(&self) -> (r: Self)
        ensures
            r@ == self@,
    {
        ExecutionEnvironment {
            execution: self.execution.clone(),
            format: self.format.clone(),
            runners: self.runners.clone(),
        }
    }
}

/// The program to spawn and its fixed arguments.
#[derive(Debug)]
pub struct ExecutionCommand {
    pub program: String,
    pub args: Vec<String>,
}

impl Clone for ExecutionCommand {
    fn clone(&self) -> (r: Self)
        ensures
            command_eq_spec(&r, self),
    {
        ExecutionCommand {
            program: self.program.clone(),
            args: crate::config::clone_string_vec(&self.args),
        }
    }
}

/// Equality of commands, by program and argument list contents.
pub open spec fn command_eq_spec(a: &ExecutionCommand, b: &ExecutionCommand) -> bool {
    a.program@ == b.program@ && a.args.deep_view() == b.args.deep_view()
}

impl PartialEq for ExecutionCommand {
    fn eq(&self, other: &ExecutionCommand) -> (r: bool) {
        if !(self.program == other.program) {
            assert(self.program@ != other.program@);
            return false;
        }
        let n = self.args.len();
        if n != other.args.len() {
            assert(self.args.deep_view().len() != other.args.deep_view().len());
            return false;
        }
        let mut i: usize = 0;
        while i < n
            invariant
                n == self.args.len() == other.args.len(),
                i <= n,
                forall|j: int| 0 <= j < i ==> self.args.deep_view()[j] == other.args.deep_view()[j],
        decreases n - i,
    {
            if !crate::text::str_eq(self.args[i].as_str(), other.args[i].as_str()) {
                assert(self.args.deep_view()[i as int] != other.args.deep_view()[i as int]);
                return false;
            }
            assert(self.args.deep_view()[i as int] == other.args.deep_view()[i as int]);
            i += 1;
        }
        assert(self.args.deep_view() =~= other.args.deep_view());
        true
    }
}

impl vstd::std_specs::cmp::PartialEqSpecImpl for ExecutionCommand {
    open spec fn obeys_eq_spec() -> bool {
        true
    }

    open spec fn eq_spec(&self, other: &ExecutionCommand) -> bool {
        command_eq_spec(self, other)
    }
}

impl ExecutionCommand {
    /// Whether the program names the running tool itself: the
    /// `"$MDDUX"` placeholder is persisted instead of an absolute path,
    /// and the caller expands it when spawning.
    pub fn program_is_placeholder(&self) -> (r: bool)
        ensures
            r == (self.program@ == "$MDDUX"@),
    {
        crate::text::str_eq(self.program.as_str(), "$MDDUX")
    }
}

/// Everything that identifies one execution: the command, the cleaned
/// stdin bytes, and their fingerprint.
#[derive(Debug)]
pub struct ExecutionInput {
    pub command: ExecutionCommand,
    pub stdin_hash: i32,
    pub stdin: Content,
}

impl Clone for ExecutionInput {
    fn clone(&self) -> (r: Self)
        ensures
            input_eq_spec(&r, self),
    {
        ExecutionInput {
            command: self.command.clone(),
            stdin_hash: self.stdin_hash,
            stdin: self.stdin.clone(),
        }
    }
}

/// When two inputs count as "the same execution" for the cache: command,
/// fingerprint and stdin all structurally equal.
pub open spec fn input_eq_spec(a: &ExecutionInput, b: &ExecutionInput) -> bool {
    command_eq_spec(&a.command, &b.command) && a.stdin_hash == b.stdin_hash
        && crate::content::content_eq_spec(&a.stdin, &b.stdin)
}

impl PartialEq for ExecutionInput {
    fn eq(&self, other: &ExecutionInput) -> (r: bool) {
        self.command == other.command && self.stdin_hash == other.stdin_hash && self.stdin
            == other.stdin
    }
}

impl vstd::std_specs::cmp::PartialEqSpecImpl for ExecutionInput {
    open spec fn obeys_eq_spec() -> bool {
        true
    }

    open spec fn eq_spec(&self, other: &ExecutionInput) -> bool {
        input_eq_spec(self, other)
    }
}

/// What a finished subprocess left behind.
#[derive(Debug)]
pub struct ExecutionOutput {
    pub status_code: Option<i32>,
    pub stdout: Content,
    pub stderr: Content,
}

/// Equality of outputs, by status and by the form and contents of the
/// captured streams.
pub open spec fn output_eq_spec(a: &ExecutionOutput, b: &ExecutionOutput) -> bool {
    a.status_code == b.status_code && crate::content::content_eq_spec(&a.stdout, &b.stdout)
        && crate::content::content_eq_spec(&a.stderr, &b.stderr)
}

/// Equality of optional outputs.
pub open spec fn opt_output_eq_spec(a: &Option<ExecutionOutput>, b: &Option<ExecutionOutput>) -> bool {
    match (a, b) {
        (Some(x), Some(y)) => output_eq_spec(x, y),
        (None, None) => true,
        _ => false,
    }
}

impl Clone for ExecutionOutput {
    fn clone(&self) -> (r: Self)
        ensures
            output_eq_spec(&r, self),
    {
        ExecutionOutput {
            status_code: self.status_code,
            stdout: self.stdout.clone(),
            stderr: self.stderr.clone(),
        }
    }
}

/// A copy of an optional output, equal to its source.
pub fn clone_opt_output(o: &Option<ExecutionOutput>) -> (r: Option<ExecutionOutput>)
    ensures
        opt_output_eq_spec(&r, o),
{
    match o {
        Some(out) => Some(out.clone()),
        None => None,
    }
}

/// One planned invocation: its user-visible number, the language tag that
/// selected the runner, the input, and the output once it has run.
#[derive(Debug)]
pub struct Execution {
    pub execution_count: i32,
    pub type_: String,
    pub input: ExecutionInput,
    pub output: Option<ExecutionOutput>,
}

impl Clone for Execution {
    fn clone(&self) -> (r: Self)
        ensures
            r.execution_count == self.execution_count,
            r.type_@ == self.type_@,
            input_eq_spec(&r.input, &self.input),
            opt_output_eq_spec(&r.output, &self.output),
    {
        Execution {
            execution_count: self.execution_count,
            type_: self.type_.clone(),
            input: self.input.clone(),
            output: clone_opt_output(&self.output),
        }
    }
}

impl Execution {
    /// Runs this execution through the subprocess capability `run`, unless
    /// the merged configuration marks it skipped. On success the captured
    /// output is recorded; on failure the execution is left untouched and
    /// the error is passed up.
    pub fn execute<F: Fn(&ExecutionInput) -> Result<ExecutionOutput, MdduxError>>(
        &mut self,
        config: &ExecutionConfig,
        run: &F,
    ) -> (r: Result<(), MdduxError>)
        requires
            forall|x: &ExecutionInput| call_requires(*run, (x,)),
        ensures
            final(self).execution_count == old(self).execution_count,
            final(self).type_ == old(self).type_,
            final(self).input == old(self).input,
            config.skipped == Some(true) ==> r is Ok && final(self).output == old(self).output,
            config.skipped != Some(true) ==> match r {
                Ok(()) => final(self).output matches Some(out) && call_ensures(
                    *run,
                    (&old(self).input,),
                    Ok(out),
                ),
                Err(e) => final(self).output == old(self).output && call_ensures(
                    *run,
                    (&old(self).input,),
                    Err(e),
                ),
            },
    {
        let skipped = match config.skipped {
            Some(b) => b,
            None => false,
        };
        if skipped {
            return Ok(());
        }
        match run(&self.input) {
            Ok(out) => {
                self.output = Some(out);
                Ok(())
            },
            Err(e) => Err(e),
        }
    }
}

} // verus!
