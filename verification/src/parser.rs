//! The execution planner: walks the document once, strips directive
//! comments from executable blocks, builds the execution records, and
//! merges front-matter configuration into the environment as it is met.

use vstd::prelude::*;

use crate::config::{
    format_config_none, format_insert_spec, Config, ExecutionConfig, FormatConfig, FormatConfigV,
    RunnerConfig, RunnerConfigV,
};
use crate::content::{calc_fast_digest, fast_digest_of, Content};
use crate::document::{count_code_blocks, first_fm, MdNode};
use crate::executor::{Execution, ExecutionCommand, ExecutionEnvironment, ExecutionInput};
use crate::runner::MdduxState;
use crate::text::{
    ascii_lower_spec, find_char, find_char_spec, lines_spec, split_lines, string_push, trim,
    trim_spec,
};

verus! {

/// The directive-comment prefix of a runner; `#` when none is configured.
pub open spec fn runner_prefix(r: RunnerConfigV) -> Seq<char> {
    match r.special_comment_prefix {
        Some(p) => p,
        None => "#"@,
    }
}

/// The directive-comment suffix of a runner; empty when none is
/// configured.
pub open spec fn runner_suffix(r: RunnerConfigV) -> Seq<char> {
    match r.special_comment_suffix {
        Some(p) => p,
        None => Seq::empty(),
    }
}

pub open spec fn is_prefix(s: Seq<char>, p: Seq<char>) -> bool {
    s.len() >= p.len() && s.subrange(0, p.len() as int) == p
}

pub open spec fn is_suffix(s: Seq<char>, p: Seq<char>) -> bool {
    s.len() >= p.len() && s.subrange(s.len() - p.len(), s.len() as int) == p
}

/// The middle of a directive-shaped line: the trimmed line minus prefix
/// and suffix, or nothing if either does not match.
pub open spec fn line_strip(line: Seq<char>, pre: Seq<char>, suf: Seq<char>) -> Option<Seq<char>> {
    let t = trim_spec(line);
    if !is_prefix(t, pre) {
        None
    } else {
        let a = t.skip(pre.len() as int);
        if !is_suffix(a, suf) {
            None
        } else {
            Some(a.take(a.len() - suf.len()))
        }
    }
}

/// The split of a directive middle at its first colon.
pub open spec fn line_split_key_value(m: Seq<char>) -> Option<(Seq<char>, Seq<char>)> {
    let ci = find_char_spec(m, ':');
    if ci == m.len() {
        None
    } else {
        Some((m.take(ci), m.skip(ci + 1)))
    }
}

/// The configuration key and value a line carries, if the line is a
/// well-formed `mddux-` directive comment.
pub open spec fn line_directive(line: Seq<char>, pre: Seq<char>, suf: Seq<char>) -> Option<
    (Seq<char>, Seq<char>),
> {
    match line_strip(line, pre, suf) {
        None => None,
        Some(m) => match line_split_key_value(m) {
            None => None,
            Some((rk, rv)) => {
                let lk = ascii_lower_spec(trim_spec(rk));
                if is_prefix(lk, "mddux-"@) {
                    Some((lk.skip("mddux-"@.len() as int), trim_spec(rv)))
                } else {
                    None
                }
            },
        },
    }
}

/// Whether a line passes through to the cleaned content unchanged. A line
/// that carries the directive shape (prefix, suffix and a colon) is
/// consumed, whether or not its key is recognised.
pub open spec fn line_passthrough(line: Seq<char>, pre: Seq<char>, suf: Seq<char>) -> bool {
    match line_strip(line, pre, suf) {
        None => true,
        Some(m) => line_split_key_value(m) is None,
    }
}

/// What one line contributes to the cleaned content.
pub open spec fn clean_line_contribution(line: Seq<char>, pre: Seq<char>, suf: Seq<char>) -> Seq<
    char,
> {
    if line_passthrough(line, pre, suf) {
        line.push('\n')
    } else {
        Seq::empty()
    }
}

/// The cleaned content: every passthrough line with its newline restored,
/// directive lines dropped.
pub open spec fn cleaned_content_spec(lines: Seq<Seq<char>>, pre: Seq<char>, suf: Seq<char>) -> Seq<
    char,
>
    decreases lines.len(),
{
    if lines.len() == 0 {
        Seq::empty()
    } else {
        cleaned_content_spec(lines.drop_last(), pre, suf) + clean_line_contribution(
            lines.last(),
            pre,
            suf,
        )
    }
}

proof fn lemma_cleaned_front(lines: Seq<Seq<char>>, pre: Seq<char>, suf: Seq<char>)
    requires
        lines.len() > 0,
    ensures
        cleaned_content_spec(lines, pre, suf) == clean_line_contribution(lines[0], pre, suf)
            + cleaned_content_spec(lines.drop_first(), pre, suf),
    decreases lines.len(),
{
    if lines.len() == 1 {
        assert(lines.drop_last() =~= Seq::<Seq<char>>::empty());
        assert(lines.drop_first() =~= Seq::<Seq<char>>::empty());
        assert(lines.last() == lines[0]);
        assert(cleaned_content_spec(lines, pre, suf) =~= clean_line_contribution(
            lines[0],
            pre,
            suf,
        ) + cleaned_content_spec(lines.drop_first(), pre, suf));
    } else {
        let t = lines.drop_last();
        lemma_cleaned_front(t, pre, suf);
        assert(lines.drop_first().drop_last() =~= t.drop_first());
        assert(lines.drop_first().last() == lines.last());
        assert(lines[0] == t[0]);
        assert(cleaned_content_spec(lines.drop_first(), pre, suf) == cleaned_content_spec(
            t.drop_first(),
            pre,
            suf,
        ) + clean_line_contribution(lines.last(), pre, suf));
        assert((clean_line_contribution(t[0], pre, suf) + cleaned_content_spec(
            t.drop_first(),
            pre,
            suf,
        )) + clean_line_contribution(lines.last(), pre, suf) =~= clean_line_contribution(
            lines[0],
            pre,
            suf,
        ) + cleaned_content_spec(lines.drop_first(), pre, suf));
    }
}

/// Directive stripping round-trips: a block none of whose lines has the
/// directive shape passes through the directive parser byte for byte.
/// This holds of content that ends with a newline and has no `CRLF` line
/// ending: line splitting re-joins exactly there; a missing final newline
/// is restored (and so added), and a carriage return before a line feed
/// is dropped.
pub proof fn lemma_directive_roundtrip(s: Seq<char>, pre: Seq<char>, suf: Seq<char>)
    requires
        forall|i: int|
            0 <= i < lines_spec(s).len() ==> line_passthrough(
                #[trigger] lines_spec(s)[i],
                pre,
                suf,
            ),
        s.len() > 0 ==> s.last() == '\n',
        forall|i: int| 0 < i < s.len() ==> !((#[trigger] s[i]) == '\n' && s[i - 1] == '\r'),
    ensures
        cleaned_content_spec(lines_spec(s), pre, suf) == s,
    decreases s.len(),
{
    if s.len() == 0 {
        assert(cleaned_content_spec(lines_spec(s), pre, suf) =~= s);
    } else {
        crate::text::lemma_find_char_spec_bounds(s, '\n');
        let i = crate::text::find_nl(s);
        assert(i < s.len()) by {
            if i == s.len() {
                assert(s[s.len() - 1] == '\n');
            }
        }
        let head = s.take(i);
        assert(crate::text::strip_one_cr(head) == head) by {
            if i > 0 {
                assert(head.last() == s[i - 1]);
                assert(s[i] == '\n');
                assert(!(s[i] == '\n' && s[i - 1] == '\r'));
            }
        }
        let rest = s.skip(i + 1);
        assert(lines_spec(s) == seq![head] + lines_spec(rest));
        assert(lines_spec(s)[0] == head);
        assert(lines_spec(s).drop_first() =~= lines_spec(rest));
        if rest.len() > 0 {
            assert(rest.last() == s.last());
        }
        assert forall|t: int| 0 < t < rest.len() implies !((#[trigger] rest[t]) == '\n' && rest[t
            - 1] == '\r') by {
            assert(rest[t] == s[i + 1 + t]);
            assert(rest[t - 1] == s[i + t]);
        }
        assert forall|t: int|
            0 <= t < lines_spec(rest).len() implies line_passthrough(
            #[trigger] lines_spec(rest)[t],
            pre,
            suf,
        ) by {
            assert(lines_spec(rest)[t] == lines_spec(s)[t + 1]);
        }
        lemma_directive_roundtrip(rest, pre, suf);
        lemma_cleaned_front(lines_spec(s), pre, suf);
        assert(line_passthrough(head, pre, suf));
        assert(clean_line_contribution(head, pre, suf) == head.push('\n'));
        assert(head.push('\n') + rest =~= s);
    }
}

/// Whether a directive value means `true`: case-insensitive comparison
/// with `"true"`.
pub open spec fn truthy(v: Seq<char>) -> bool {
    ascii_lower_spec(v) == ascii_lower_spec("true"@)
}

/// One directive line folded into the per-block configuration pair.
pub open spec fn directive_step(
    acc: (ExecutionConfig, FormatConfigV),
    line: Seq<char>,
    pre: Seq<char>,
    suf: Seq<char>,
) -> (ExecutionConfig, FormatConfigV) {
    match line_directive(line, pre, suf) {
        None => acc,
        Some((k, v)) => {
            if k == "skipped"@ {
                (ExecutionConfig { skipped: Some(truthy(v)) }, acc.1)
            } else {
                (acc.0, format_insert_spec(acc.1, k, v))
            }
        },
    }
}

/// The per-block configuration pair after folding every directive line in
/// order.
pub open spec fn directive_configs_spec(
    lines: Seq<Seq<char>>,
    pre: Seq<char>,
    suf: Seq<char>,
) -> (ExecutionConfig, FormatConfigV)
    decreases lines.len(),
{
    if lines.len() == 0 {
        (ExecutionConfig { skipped: None }, format_config_none())
    } else {
        directive_step(directive_configs_spec(lines.drop_last(), pre, suf), lines.last(), pre, suf)
    }
}

/// Strips directive comments from a block's raw content. Returns the
/// cleaned content that will be piped to the runner, together with the
/// block-level execution and format overrides the directives carried.
pub fn parse_content(
    environment: &ExecutionEnvironment,
    runner: &RunnerConfig,
    stdin_str: String,
) -> (r: (String, ExecutionConfig, FormatConfig))
    ensures
        r.0@ == cleaned_content_spec(
            lines_spec(stdin_str@),
            runner_prefix(runner@),
            runner_suffix(runner@),
        ),
        (r.1, r.2@) == directive_configs_spec(
            lines_spec(stdin_str@),
            runner_prefix(runner@),
            runner_suffix(runner@),
        ),
{
    let pre: &str = match &runner.special_comment_prefix {
        Some(p) => p.as_str(),
        None => "#",
    };
    let suf: &str = match &runner.special_comment_suffix {
        Some(p) => p.as_str(),
        None => "",
    };
    proof {
        reveal_strlit("");
        assert(""@ =~= Seq::<char>::empty());
        assert(pre@ == runner_prefix(runner@));
        assert(suf@ == runner_suffix(runner@));
    }
    let ghost gpre = runner_prefix(runner@);
    let ghost gsuf = runner_suffix(runner@);
    let lines = split_lines(stdin_str.as_str());
    let ghost glines = lines_spec(stdin_str@);
    let mut content = String::new();
    let mut execution_config = ExecutionConfig::new();
    let mut format_config = FormatConfig::new();
    let mut i: usize = 0;
    while i < lines.len()
        invariant
            lines.deep_view() == glines,
            glines == lines_spec(stdin_str@),
            gpre == runner_prefix(runner@),
            gsuf == runner_suffix(runner@),
            pre@ == gpre,
            suf@ == gsuf,
            i <= lines.len(),
            content@ == cleaned_content_spec(glines.take(i as int), gpre, gsuf),
            (execution_config, format_config@) == directive_configs_spec(
                glines.take(i as int),
                gpre,
                gsuf,
            ),
        decreases lines.len() - i,
    {
        let ghost prev_content = content@;
        let ghost prev_acc = (execution_config, format_config@);
        let raw_line: &str = lines[i].as_str();
        proof {
            assert(raw_line@ == glines[i as int]);
        }
        let line_t = trim(raw_line);
        let mut passthrough: bool = true;
        match crate::text::strip_prefix(line_t, pre) {
            None => {
                proof {
                    assert(line_strip(raw_line@, gpre, gsuf) is None);
                }
            },
            Some(after_pre) => {
                match crate::text::strip_suffix(after_pre, suf) {
                    None => {
                        proof {
                            assert(after_pre@ == trim_spec(raw_line@).skip(gpre.len() as int));
                            assert(line_strip(raw_line@, gpre, gsuf) is None);
                        }
                    },
                    Some(mid) => {
                        proof {
                            assert(after_pre@ == trim_spec(raw_line@).skip(gpre.len() as int));
                            assert(mid@ == after_pre@.take(after_pre@.len() - gsuf.len()));
                            assert(line_strip(raw_line@, gpre, gsuf) == Some(mid@));
                        }
                        match find_char(mid, ':') {
                            None => {
                                proof {
                                    assert(line_split_key_value(mid@) is None);
                                }
                            },
                            Some(ci) => {
                                passthrough = false;
                                proof {
                                    assert(line_split_key_value(mid@) == Some(
                                        (mid@.take(ci as int), mid@.skip(ci as int + 1)),
                                    ));
                                }
                                let mlen = mid.unicode_len();
                                let rawkey = mid.substring_char(0, ci);
                                let rawval = mid.substring_char(ci + 1, mlen);
                                proof {
                                    assert(rawkey@ =~= mid@.take(ci as int));
                                    assert(rawval@ =~= mid@.skip(ci as int + 1));
                                }
                                let lowkey = crate::text::to_ascii_lowercase(trim(rawkey));
                                match crate::text::strip_prefix(lowkey.as_str(), "mddux-") {
                                    None => {
                                        proof {
                                            assert(!is_prefix(lowkey@, "mddux-"@));
                                            assert(line_directive(raw_line@, gpre, gsuf) is None);
                                        }
                                    },
                                    Some(key) => {
                                        let value = trim(rawval);
                                        proof {
                                            assert(key@ == lowkey@.skip("mddux-"@.len() as int));
                                            assert(line_directive(raw_line@, gpre, gsuf) == Some(
                                                (key@, value@),
                                            ));
                                        }
                                        let exec_ok = execution_config.insert_with_str(key, value);
                                        if !exec_ok {
                                            format_config.insert_with_str(key, value);
                                        } else {
                                            proof {
                                                assert(format_config@ == prev_acc.1);
                                            }
                                        }
                                    },
                                }
                            },
                        }
                    },
                }
            },
        }
        if passthrough {
            content.append(raw_line);
            string_push(&mut content, '\n');
            proof {
                assert(line_passthrough(raw_line@, gpre, gsuf));
                assert(content@ =~= prev_content + clean_line_contribution(
                    raw_line@,
                    gpre,
                    gsuf,
                ));
            }
        } else {
            proof {
                assert(!line_passthrough(raw_line@, gpre, gsuf));
                assert(content@ =~= prev_content + clean_line_contribution(
                    raw_line@,
                    gpre,
                    gsuf,
                ));
            }
        }
        i += 1;
        proof {
            let gi = i as int;
            assert(glines.take(gi).drop_last() =~= glines.take(gi - 1));
            assert(glines.take(gi).last() == glines[gi - 1]);
            assert(content@ == cleaned_content_spec(glines.take(gi), gpre, gsuf));
            assert((execution_config, format_config@) == directive_step(
                directive_configs_spec(glines.take(gi - 1), gpre, gsuf),
                glines[gi - 1],
                gpre,
                gsuf,
            ));
        }
    }
    proof {
        assert(glines.take(lines.deep_view().len() as int) =~= glines);
    }
    (content, execution_config, format_config)
}

/// The ghost image of one planned execution.
#[verifier::ext_equal]
pub struct ExecutionV {
    pub execution_count: int,
    pub type_: Seq<char>,
    pub program: Seq<char>,
    pub args: Seq<Seq<char>>,
    pub stdin_hash: i32,
    pub stdin_bytes: Seq<u8>,
}

/// The ghost image of what planning has produced so far.
#[verifier::ext_equal]
pub struct PlanV {
    pub contents: Seq<Seq<char>>,
    pub executions: Seq<ExecutionV>,
    pub mapping: Seq<Option<int>>,
    pub exec_configs: Seq<ExecutionConfig>,
    pub format_configs: Seq<FormatConfigV>,
    pub count: int,
}

pub open spec fn exec_view(e: Execution) -> ExecutionV {
    ExecutionV {
        execution_count: e.execution_count as int,
        type_: e.type_@,
        program: e.input.command.program@,
        args: e.input.command.args.deep_view(),
        stdin_hash: e.input.stdin_hash,
        stdin_bytes: e.input.stdin@,
    }
}

/// The ghost image of a state's planning tables, with the running
/// execution counter `count` alongside.
pub open spec fn state_plan_view(st: MdduxState, count: int) -> PlanV {
    PlanV {
        contents: st.contents@.map_values(|s: String| s@),
        executions: st.executions@.map_values(|e: Execution| exec_view(e)),
        mapping: st.code_block_to_execution@.map_values(
            |o: Option<usize>|
                match o {
                    Some(x) => Some(x as int),
                    None => None::<int>,
                },
        ),
        exec_configs: st.execution_configs@,
        format_configs: st.format_configs@.map_values(|f: FormatConfig| f@),
        count: count,
    }
}

/// The language tag of an info string: everything before the first colon.
pub open spec fn tag_of_info(info: Seq<char>) -> Seq<char> {
    info.take(find_char_spec(info, ':'))
}

/// What planning one code block does to the plan. A block whose tag has
/// no registered runner only records an unmapped position; a matched
/// block records its cleaned content, configuration and execution record,
/// and advances the visible counter unless it is skipped.
pub open spec fn plan_step_cb(
    env: crate::executor::ExecutionEnvironmentV,
    p: PlanV,
    info: Seq<char>,
    literal: Seq<u8>,
) -> PlanV {
    let tag = tag_of_info(info);
    match crate::config::assoc_get(env.runners, tag) {
        None => PlanV { mapping: p.mapping.push(None), ..p },
        Some(runner) => {
            let raw = crate::content::utf8_lossy_of(literal);
            let glines = lines_spec(raw);
            let pre = runner_prefix(runner);
            let suf = runner_suffix(runner);
            let cleaned = cleaned_content_spec(glines, pre, suf);
            let cfgs = directive_configs_spec(glines, pre, suf);
            let skipped = cfgs.0.skipped == Some(true);
            let bytes = vstd::utf8::encode_utf8(cleaned);
            let e = ExecutionV {
                execution_count: p.count,
                type_: tag,
                program: runner.command[0],
                args: runner.command.drop_first(),
                stdin_hash: fast_digest_of(bytes),
                stdin_bytes: bytes,
            };
            PlanV {
                contents: p.contents.push(cleaned),
                executions: p.executions.push(e),
                mapping: p.mapping.push(Some(p.executions.len() as int)),
                exec_configs: p.exec_configs.push(cfgs.0),
                format_configs: p.format_configs.push(cfgs.1),
                count: if skipped {
                    p.count
                } else {
                    p.count + 1
                },
            }
        },
    }
}

/// What planning one node does to the plan: only code blocks matter.
pub open spec fn plan_step(
    env: crate::executor::ExecutionEnvironmentV,
    p: PlanV,
    node: MdNode,
) -> PlanV {
    match node {
        MdNode::CodeBlock { info, literal } => plan_step_cb(env, p, info@, literal@),
        _ => p,
    }
}

/// The empty plan: nothing recorded, next visible number 1.
pub open spec fn plan_empty() -> PlanV {
    PlanV {
        contents: Seq::empty(),
        executions: Seq::empty(),
        mapping: Seq::empty(),
        exec_configs: Seq::empty(),
        format_configs: Seq::empty(),
        count: 1,
    }
}

/// The plan of a whole document under one fixed environment. This is the
/// planner's functional specification for documents without front matter,
/// and for the prefix of a document before its first front-matter node.
pub open spec fn plan_spec(
    env: crate::executor::ExecutionEnvironmentV,
    doc: Seq<MdNode>,
) -> PlanV
    decreases doc.len(),
{
    if doc.len() == 0 {
        plan_empty()
    } else {
        plan_step(env, plan_spec(env, doc.drop_last()), doc.last())
    }
}

/// The tables of plan `p` stand, in order, at the head of plan `q`'s.
pub open spec fn plan_extends_plan(p: PlanV, q: PlanV) -> bool {
    &&& p.contents.len() <= q.contents.len()
    &&& forall|i: int| 0 <= i < p.contents.len() ==> #[trigger] q.contents[i] == p.contents[i]
    &&& p.executions.len() <= q.executions.len()
    &&& forall|i: int| 0 <= i < p.executions.len() ==> #[trigger] q.executions[i] == p.executions[i]
    &&& p.mapping.len() <= q.mapping.len()
    &&& forall|i: int| 0 <= i < p.mapping.len() ==> #[trigger] q.mapping[i] == p.mapping[i]
    &&& p.exec_configs.len() <= q.exec_configs.len()
    &&& forall|i: int|
        0 <= i < p.exec_configs.len() ==> #[trigger] q.exec_configs[i] == p.exec_configs[i]
    &&& p.format_configs.len() <= q.format_configs.len()
    &&& forall|i: int|
        0 <= i < p.format_configs.len() ==> #[trigger] q.format_configs[i] == p.format_configs[i]
}

/// Planning is prefix-monotone: what a document prefix plans under a fixed
/// environment, the longer document plans identically, with more behind
/// it. With the planner's guarantee that the blocks before the first
/// front-matter node are planned under the initial environment, this is
/// why front matter standing after a block can never change how that
/// earlier block was planned.
pub proof fn lemma_plan_prefix_monotone(
    env: crate::executor::ExecutionEnvironmentV,
    doc: Seq<MdNode>,
    k: int,
    m: int,
)
    requires
        0 <= k <= m <= doc.len(),
    ensures
        plan_extends_plan(plan_spec(env, doc.take(k)), plan_spec(env, doc.take(m))),
    decreases m - k,
{
    if k == m {
    } else {
        lemma_plan_prefix_monotone(env, doc, k, m - 1);
        assert(doc.take(m).drop_last() =~= doc.take(m - 1));
        assert(doc.take(m).last() == doc[m - 1]);
        let prev = plan_spec(env, doc.take(m - 1));
        let next = plan_spec(env, doc.take(m));
        assert(next == plan_step(env, prev, doc[m - 1]));
        match doc[m - 1] {
            MdNode::CodeBlock { info, literal } => {
                assert(plan_extends_plan(prev, next));
            },
            _ => {
                assert(next == prev);
            },
        }
        assert(plan_extends_plan(plan_spec(env, doc.take(k)), next));
    }
}

/// The plan of a document in which each node is planned under its own
/// environment: node `j` under `envs[j]`. This is the planner's
/// functional specification for every document: the environments change
/// only at front-matter nodes, so a runner defined in front matter
/// governs exactly the blocks after it.
pub open spec fn plan_spec_envs(
    envs: Seq<crate::executor::ExecutionEnvironmentV>,
    doc: Seq<MdNode>,
) -> PlanV
    decreases doc.len(),
{
    if doc.len() == 0 {
        plan_empty()
    } else {
        plan_step(envs[doc.len() - 1], plan_spec_envs(envs, doc.drop_last()), doc.last())
    }
}

proof fn lemma_plan_spec_envs_push(
    envs: Seq<crate::executor::ExecutionEnvironmentV>,
    e: crate::executor::ExecutionEnvironmentV,
    doc: Seq<MdNode>,
)
    requires
        doc.len() <= envs.len(),
    ensures
        plan_spec_envs(envs.push(e), doc) == plan_spec_envs(envs, doc),
    decreases doc.len(),
{
    if doc.len() > 0 {
        lemma_plan_spec_envs_push(envs, e, doc.drop_last());
        assert(envs.push(e)[doc.len() - 1] == envs[doc.len() - 1]);
    }
}

/// Plans one code block, as `plan_step_cb` describes, appending to the
/// state's tables and advancing the visible counter.
pub fn parse_code_block(
    state: &mut MdduxState,
    code_block_index: usize,
    info: &String,
    literal: &Vec<u8>,
    execution_count: &mut i32,
)
    requires
        old(state).wf(),
        crate::config::runners_wf(old(state).environment@.runners),
        code_block_index == old(state).code_block_to_execution@.len(),
        1 <= *old(execution_count) < i32::MAX,
    ensures
        final(state).wf(),
        final(state).environment == old(state).environment,
        final(state).front_matter == old(state).front_matter,
        state_plan_view(*final(state), *final(execution_count) as int) == plan_step_cb(
            old(state).environment@,
            state_plan_view(*old(state), *old(execution_count) as int),
            info@,
            literal@,
        ),
        *old(execution_count) <= *final(execution_count) <= *old(execution_count) + 1,
        final(state).executions@.len() <= old(state).executions@.len() + 1,
        final(state).code_block_to_execution@ == old(state).code_block_to_execution@.push(
            if crate::config::assoc_get(
                old(state).environment@.runners,
                tag_of_info(info@),
            ) is Some {
                Some(old(state).executions@.len() as usize)
            } else {
                None
            },
        ),
        final(state).executions@.len() == old(state).executions@.len() + (
        if crate::config::assoc_get(
            old(state).environment@.runners,
            tag_of_info(info@),
        ) is Some {
            1int
        } else {
            0int
        }),
        forall|i: int|
            0 <= i < old(state).executions@.len() ==> #[trigger] final(state).executions@[i]
                == old(state).executions@[i],
        forall|i: int|
            0 <= i < old(state).contents@.len() ==> #[trigger] final(state).contents@[i]
                == old(state).contents@[i],
        forall|i: int|
            0 <= i < old(state).code_block_to_execution@.len() ==> #[trigger] final(
                state).code_block_to_execution@[i] == old(state).code_block_to_execution@[i],
        forall|i: int|
            0 <= i < old(state).execution_configs@.len() ==> #[trigger] final(
                state).execution_configs@[i] == old(state).execution_configs@[i],
        forall|i: int|
            0 <= i < old(state).format_configs@.len() ==> #[trigger] final(
                state).format_configs@[i] == old(state).format_configs@[i],
        forall|i: int|
            old(state).executions@.len() <= i < final(state).executions@.len() ==> (
            #[trigger] final(state).executions@[i]).output is None && final(
                state).executions@[i].input.stdin is Binary && final(
                state).executions@[i].execution_count == *old(execution_count),
{
    let ghost old_plan = state_plan_view(*old(state), *old(execution_count) as int);
    let tag_end = match find_char(info.as_str(), ':') {
        Some(i) => i,
        None => info.as_str().unicode_len(),
    };
    let code_type: &str = info.as_str().substring_char(0, tag_end);
    proof {
        assert(code_type@ =~= tag_of_info(info@));
    }
    let runner = match state.environment.runners.get(code_type) {
        None => {
            state.code_block_to_execution.push(None);
            proof {
                let pv = state_plan_view(*state, *execution_count as int);
                let sv = plan_step_cb(old(state).environment@, old_plan, info@, literal@);
                assert(pv.mapping =~= sv.mapping);
                assert(pv =~= sv);
            }
            return ;
        },
        Some(r) => r.clone(),
    };
    proof {
        crate::config::lemma_assoc_get_wf(old(state).environment@.runners, tag_of_info(info@));
    }
    let raw_code_str = crate::content::utf8_lossy(literal.as_slice());
    let execution_index = state.executions.len();
    let (content, execution_config, format_config) = parse_content(
        &state.environment,
        &runner,
        raw_code_str,
    );
    let skipped = match execution_config.skipped {
        Some(b) => b,
        None => false,
    };
    let stdin = content.as_str().as_bytes_vec();
    let input = make_execution_input(&runner, stdin);
    let execution = Execution {
        execution_count: *execution_count,
        type_: code_type.to_owned(),
        input,
        output: None,
    };
    state.contents.push(content);
    state.executions.push(execution);
    state.execution_configs.push(execution_config);
    state.format_configs.push(format_config);
    state.code_block_to_execution.push(Some(execution_index));
    if !skipped {
        *execution_count = *execution_count + 1;
    }
    proof {
        let pv = state_plan_view(*state, *execution_count as int);
        let sv = plan_step_cb(old(state).environment@, old_plan, info@, literal@);
        assert(pv.contents =~= sv.contents);
        assert(pv.executions =~= sv.executions);
        assert(pv.mapping =~= sv.mapping);
        assert(pv.exec_configs =~= sv.exec_configs);
        assert(pv.format_configs =~= sv.format_configs);
        assert(pv =~= sv);
    }
}

/// Builds the execution input for one block: the runner's command split
/// into program and arguments, the cleaned stdin bytes, and their
/// fingerprint.
pub fn make_execution_input(runner: &RunnerConfig, stdin: Vec<u8>) -> (r: ExecutionInput)
    requires
        runner@.command.len() > 0,
    ensures
        r.command.program@ == runner@.command[0],
        r.command.args.deep_view() == runner@.command.drop_first(),
        r.stdin_hash == fast_digest_of(stdin@),
        r.stdin matches Content::Binary(b) && b@ == stdin@,
{
    let program = runner.command[0].clone();
    let mut args: Vec<String> = Vec::new();
    let mut i: usize = 1;
    while i < runner.command.len()
        invariant
            runner.command.len() > 0,
            1 <= i <= runner.command.len(),
            runner@.command.len() == runner.command.len(),
            args@.len() == i - 1,
            forall|j: int| 0 <= j < i - 1 ==> args.deep_view()[j] == runner@.command[j + 1],
        decreases runner.command.len() - i,
    {
        let ghost prev_deep = args.deep_view();
        args.push(runner.command[i].clone());
        proof {
            assert(args.deep_view() =~= prev_deep.push(runner.command@[i as int]@));
        }
        i += 1;
    }
    proof {
        assert(args.deep_view() =~= runner@.command.drop_first());
    }
    let stdin_hash = calc_fast_digest(stdin.as_slice());
    ExecutionInput { command: ExecutionCommand { program, args }, stdin_hash, stdin: Content::Binary(stdin) }
}

/// What reading one optional string field yields: nothing when the value
/// is unusable, `Some(None)` for null, `Some(Some(text))` for a string.
pub open spec fn opt_str_of(v: yaml_rust::Yaml) -> Option<Option<Seq<char>>> {
    if crate::yamlio::yaml_null_of(v) {
        Some(None)
    } else {
        match crate::yamlio::yaml_str_of(v) {
            None => None,
            Some(s) => Some(Some(s)),
        }
    }
}

/// What reading one optional boolean field yields.
pub open spec fn opt_bool_of(v: yaml_rust::Yaml) -> Option<Option<bool>> {
    if crate::yamlio::yaml_null_of(v) {
        Some(None)
    } else {
        match crate::yamlio::yaml_bool_of(v) {
            None => None,
            Some(b) => Some(Some(b)),
        }
    }
}

/// One mapping entry folded into the execution settings: a non-string
/// key or a non-boolean `skipped` value rejects the section, null leaves
/// the field, unknown keys are ignored.
pub open spec fn exec_cfg_step(
    acc: ExecutionConfig,
    e: (yaml_rust::Yaml, yaml_rust::Yaml),
) -> Option<ExecutionConfig> {
    match crate::yamlio::yaml_str_of(e.0) {
        None => None,
        Some(k) => if k == "skipped"@ {
            if crate::yamlio::yaml_null_of(e.1) {
                Some(acc)
            } else {
                match crate::yamlio::yaml_bool_of(e.1) {
                    None => None,
                    Some(b) => Some(ExecutionConfig { skipped: Some(b) }),
                }
            }
        } else {
            Some(acc)
        },
    }
}

pub open spec fn exec_cfg_fold(es: Seq<(yaml_rust::Yaml, yaml_rust::Yaml)>) -> Option<
    ExecutionConfig,
>
    decreases es.len(),
{
    if es.len() == 0 {
        Some(ExecutionConfig { skipped: None })
    } else {
        match exec_cfg_fold(es.drop_last()) {
            None => None,
            Some(acc) => exec_cfg_step(acc, es.last()),
        }
    }
}

/// The execution settings a front-matter value extracts to, or nothing
/// when it is unusable.
pub open spec fn extract_exec_cfg_spec(y: yaml_rust::Yaml) -> Option<ExecutionConfig> {
    match crate::yamlio::yaml_entries_of(y) {
        None => None,
        Some(es) => exec_cfg_fold(es),
    }
}

proof fn lemma_exec_cfg_fold_none(es: Seq<(yaml_rust::Yaml, yaml_rust::Yaml)>, i: int)
    requires
        0 <= i <= es.len(),
        exec_cfg_fold(es.take(i)) is None,
    ensures
        exec_cfg_fold(es) is None,
    decreases es.len() - i,
{
    if i == es.len() {
        assert(es.take(i) =~= es);
    } else {
        assert(es.take(i + 1).drop_last() =~= es.take(i));
        lemma_exec_cfg_fold_none(es, i + 1);
    }
}

/// One mapping entry folded into the format settings, under the field
/// names the persisted form uses.
pub open spec fn format_cfg_step(
    acc: FormatConfigV,
    e: (yaml_rust::Yaml, yaml_rust::Yaml),
) -> Option<FormatConfigV> {
    match crate::yamlio::yaml_str_of(e.0) {
        None => None,
        Some(k) => if k == "stdin_hidden"@ {
            match opt_bool_of(e.1) {
                None => None,
                Some(b) => Some(FormatConfigV { stdin_hidden: b, ..acc }),
            }
        } else if k == "stdin_caption_format"@ {
            match opt_str_of(e.1) {
                None => None,
                Some(v) => Some(FormatConfigV { stdin_caption_format: v, ..acc }),
            }
        } else if k == "stdin_caption_hidden"@ {
            match opt_bool_of(e.1) {
                None => None,
                Some(b) => Some(FormatConfigV { stdin_caption_hidden: b, ..acc }),
            }
        } else if k == "stdout_hidden"@ {
            match opt_bool_of(e.1) {
                None => None,
                Some(b) => Some(FormatConfigV { stdout_hidden: b, ..acc }),
            }
        } else if k == "stdout_caption_format"@ {
            match opt_str_of(e.1) {
                None => None,
                Some(v) => Some(FormatConfigV { stdout_caption_format: v, ..acc }),
            }
        } else if k == "stdout_caption_hidden"@ {
            match opt_bool_of(e.1) {
                None => None,
                Some(b) => Some(FormatConfigV { stdout_caption_hidden: b, ..acc }),
            }
        } else if k == "stdout_info"@ {
            match opt_str_of(e.1) {
                None => None,
                Some(v) => Some(FormatConfigV { stdout_info: v, ..acc }),
            }
        } else if k == "stderr_hidden"@ {
            match opt_bool_of(e.1) {
                None => None,
                Some(b) => Some(FormatConfigV { stderr_hidden: b, ..acc }),
            }
        } else if k == "stderr_caption_format"@ {
            match opt_str_of(e.1) {
                None => None,
                Some(v) => Some(FormatConfigV { stderr_caption_format: v, ..acc }),
            }
        } else if k == "stderr_caption_hidden"@ {
            match opt_bool_of(e.1) {
                None => None,
                Some(b) => Some(FormatConfigV { stderr_caption_hidden: b, ..acc }),
            }
        } else if k == "stderr_info"@ {
            match opt_str_of(e.1) {
                None => None,
                Some(v) => Some(FormatConfigV { stderr_info: v, ..acc }),
            }
        } else {
            Some(acc)
        },
    }
}

pub open spec fn format_cfg_fold(es: Seq<(yaml_rust::Yaml, yaml_rust::Yaml)>) -> Option<
    FormatConfigV,
>
    decreases es.len(),
{
    if es.len() == 0 {
        Some(format_config_none())
    } else {
        match format_cfg_fold(es.drop_last()) {
            None => None,
            Some(acc) => format_cfg_step(acc, es.last()),
        }
    }
}

/// The format settings a front-matter value extracts to.
pub open spec fn extract_format_cfg_spec(y: yaml_rust::Yaml) -> Option<FormatConfigV> {
    match crate::yamlio::yaml_entries_of(y) {
        None => None,
        Some(es) => format_cfg_fold(es),
    }
}

proof fn lemma_format_cfg_fold_none(es: Seq<(yaml_rust::Yaml, yaml_rust::Yaml)>, i: int)
    requires
        0 <= i <= es.len(),
        format_cfg_fold(es.take(i)) is None,
    ensures
        format_cfg_fold(es) is None,
    decreases es.len() - i,
{
    if i == es.len() {
        assert(es.take(i) =~= es);
    } else {
        assert(es.take(i + 1).drop_last() =~= es.take(i));
        lemma_format_cfg_fold_none(es, i + 1);
    }
}

/// A runner definition being assembled: fields read so far.
pub struct RunnerAccV {
    pub command: Option<Seq<Seq<char>>>,
    pub name: Option<Seq<char>>,
    pub special_comment_prefix: Option<Seq<char>>,
    pub special_comment_suffix: Option<Seq<char>>,
    pub exection: Option<ExecutionConfig>,
    pub format: Option<FormatConfigV>,
}

/// The command array's elements as strings, or nothing when one is not a
/// string.
pub open spec fn strs_of(items: Seq<yaml_rust::Yaml>) -> Option<Seq<Seq<char>>>
    decreases items.len(),
{
    if items.len() == 0 {
        Some(Seq::empty())
    } else {
        match strs_of(items.drop_last()) {
            None => None,
            Some(acc) => match crate::yamlio::yaml_str_of(items.last()) {
                None => None,
                Some(v) => Some(acc.push(v)),
            },
        }
    }
}

proof fn lemma_strs_of_none(items: Seq<yaml_rust::Yaml>, i: int)
    requires
        0 <= i <= items.len(),
        strs_of(items.take(i)) is None,
    ensures
        strs_of(items) is None,
    decreases items.len() - i,
{
    if i == items.len() {
        assert(items.take(i) =~= items);
    } else {
        assert(items.take(i + 1).drop_last() =~= items.take(i));
        lemma_strs_of_none(items, i + 1);
    }
}

/// One mapping entry folded into a runner definition: an unusable value
/// or an empty command rejects the runner.
pub open spec fn runner_cfg_step(
    acc: RunnerAccV,
    e: (yaml_rust::Yaml, yaml_rust::Yaml),
) -> Option<RunnerAccV> {
    match crate::yamlio::yaml_str_of(e.0) {
        None => None,
        Some(k) => if k == "command"@ {
            match crate::yamlio::yaml_vec_of(e.1) {
                None => None,
                Some(items) => match strs_of(items) {
                    None => None,
                    Some(ss) => if ss.len() == 0 {
                        None
                    } else {
                        Some(RunnerAccV { command: Some(ss), ..acc })
                    },
                },
            }
        } else if k == "name"@ {
            match opt_str_of(e.1) {
                None => None,
                Some(v) => Some(RunnerAccV { name: v, ..acc }),
            }
        } else if k == "special_comment_prefix"@ {
            match opt_str_of(e.1) {
                None => None,
                Some(v) => Some(RunnerAccV { special_comment_prefix: v, ..acc }),
            }
        } else if k == "special_comment_suffix"@ {
            match opt_str_of(e.1) {
                None => None,
                Some(v) => Some(RunnerAccV { special_comment_suffix: v, ..acc }),
            }
        } else if k == "exection"@ {
            if crate::yamlio::yaml_null_of(e.1) {
                Some(acc)
            } else {
                match extract_exec_cfg_spec(e.1) {
                    None => None,
                    Some(ec) => Some(RunnerAccV { exection: Some(ec), ..acc }),
                }
            }
        } else if k == "format"@ {
            if crate::yamlio::yaml_null_of(e.1) {
                Some(acc)
            } else {
                match extract_format_cfg_spec(e.1) {
                    None => None,
                    Some(fc) => Some(RunnerAccV { format: Some(fc), ..acc }),
                }
            }
        } else {
            Some(acc)
        },
    }
}

pub open spec fn runner_acc_none() -> RunnerAccV {
    RunnerAccV {
        command: None,
        name: None,
        special_comment_prefix: None,
        special_comment_suffix: None,
        exection: None,
        format: None,
    }
}

pub open spec fn runner_cfg_fold(es: Seq<(yaml_rust::Yaml, yaml_rust::Yaml)>) -> Option<
    RunnerAccV,
>
    decreases es.len(),
{
    if es.len() == 0 {
        Some(runner_acc_none())
    } else {
        match runner_cfg_fold(es.drop_last()) {
            None => None,
            Some(acc) => runner_cfg_step(acc, es.last()),
        }
    }
}

/// The runner a front-matter value extracts to: its fields as read, with
/// a present, non-empty command required.
pub open spec fn extract_runner_cfg_spec(y: yaml_rust::Yaml) -> Option<RunnerConfigV> {
    match crate::yamlio::yaml_entries_of(y) {
        None => None,
        Some(es) => match runner_cfg_fold(es) {
            None => None,
            Some(acc) => match acc.command {
                None => None,
                Some(cmd) => Some(
                    RunnerConfigV {
                        command: cmd,
                        name: acc.name,
                        special_comment_prefix: acc.special_comment_prefix,
                        special_comment_suffix: acc.special_comment_suffix,
                        exection: acc.exection,
                        format: acc.format,
                    },
                ),
            },
        },
    }
}

proof fn lemma_runner_cfg_fold_none(es: Seq<(yaml_rust::Yaml, yaml_rust::Yaml)>, i: int)
    requires
        0 <= i <= es.len(),
        runner_cfg_fold(es.take(i)) is None,
    ensures
        runner_cfg_fold(es) is None,
    decreases es.len() - i,
{
    if i == es.len() {
        assert(es.take(i) =~= es);
    } else {
        assert(es.take(i + 1).drop_last() =~= es.take(i));
        lemma_runner_cfg_fold_none(es, i + 1);
    }
}

/// One mapping entry folded into the runner registry: each definition
/// registered in order through `runners_insert_view`.
pub open spec fn runners_step(
    acc: Seq<(Seq<char>, RunnerConfigV)>,
    e: (yaml_rust::Yaml, yaml_rust::Yaml),
) -> Option<Seq<(Seq<char>, RunnerConfigV)>> {
    match crate::yamlio::yaml_str_of(e.0) {
        None => None,
        Some(k) => match extract_runner_cfg_spec(e.1) {
            None => None,
            Some(rc) => Some(crate::config::runners_insert_view(acc, k, rc)),
        },
    }
}

pub open spec fn runners_fold(es: Seq<(yaml_rust::Yaml, yaml_rust::Yaml)>) -> Option<
    Seq<(Seq<char>, RunnerConfigV)>,
>
    decreases es.len(),
{
    if es.len() == 0 {
        Some(Seq::empty())
    } else {
        match runners_fold(es.drop_last()) {
            None => None,
            Some(acc) => runners_step(acc, es.last()),
        }
    }
}

/// The runner registry a front-matter value extracts to.
pub open spec fn extract_runners_spec(y: yaml_rust::Yaml) -> Option<
    Seq<(Seq<char>, RunnerConfigV)>,
> {
    match crate::yamlio::yaml_entries_of(y) {
        None => None,
        Some(es) => runners_fold(es),
    }
}

proof fn lemma_runners_fold_none(es: Seq<(yaml_rust::Yaml, yaml_rust::Yaml)>, i: int)
    requires
        0 <= i <= es.len(),
        runners_fold(es.take(i)) is None,
    ensures
        runners_fold(es) is None,
    decreases es.len() - i,
{
    if i == es.len() {
        assert(es.take(i) =~= es);
    } else {
        assert(es.take(i + 1).drop_last() =~= es.take(i));
        lemma_runners_fold_none(es, i + 1);
    }
}

/// The ghost image of an extracted reserved section.
pub struct SectionV {
    pub runners: Option<Seq<(Seq<char>, RunnerConfigV)>>,
    pub execution: Option<ExecutionConfig>,
    pub format: Option<FormatConfigV>,
    pub caption: Option<bool>,
}

pub open spec fn section_none() -> SectionV {
    SectionV { runners: None, execution: None, format: None, caption: None }
}

/// One top-level entry of the reserved section folded in; unknown keys
/// are ignored, null leaves a part unset.
pub open spec fn section_step(acc: SectionV, e: (yaml_rust::Yaml, yaml_rust::Yaml)) -> Option<
    SectionV,
> {
    match crate::yamlio::yaml_str_of(e.0) {
        None => None,
        Some(k) => if k == "runners"@ {
            if crate::yamlio::yaml_null_of(e.1) {
                Some(acc)
            } else {
                match extract_runners_spec(e.1) {
                    None => None,
                    Some(rs) => Some(SectionV { runners: Some(rs), ..acc }),
                }
            }
        } else if k == "execution"@ {
            if crate::yamlio::yaml_null_of(e.1) {
                Some(acc)
            } else {
                match extract_exec_cfg_spec(e.1) {
                    None => None,
                    Some(ec) => Some(SectionV { execution: Some(ec), ..acc }),
                }
            }
        } else if k == "format"@ {
            if crate::yamlio::yaml_null_of(e.1) {
                Some(acc)
            } else {
                match extract_format_cfg_spec(e.1) {
                    None => None,
                    Some(fc) => Some(SectionV { format: Some(fc), ..acc }),
                }
            }
        } else if k == "caption"@ {
            match opt_bool_of(e.1) {
                None => None,
                Some(b) => Some(SectionV { caption: b, ..acc }),
            }
        } else {
            Some(acc)
        },
    }
}

pub open spec fn section_fold(es: Seq<(yaml_rust::Yaml, yaml_rust::Yaml)>) -> Option<SectionV>
    decreases es.len(),
{
    if es.len() == 0 {
        Some(section_none())
    } else {
        match section_fold(es.drop_last()) {
            None => None,
            Some(acc) => section_step(acc, es.last()),
        }
    }
}

/// What the reserved front-matter value extracts to: the whole section as
/// a function of the YAML value, or nothing when it is unusable.
pub open spec fn extract_config_spec(y: yaml_rust::Yaml) -> Option<SectionV> {
    match crate::yamlio::yaml_entries_of(y) {
        None => None,
        Some(es) => section_fold(es),
    }
}

proof fn lemma_section_fold_none(es: Seq<(yaml_rust::Yaml, yaml_rust::Yaml)>, i: int)
    requires
        0 <= i <= es.len(),
        section_fold(es.take(i)) is None,
    ensures
        section_fold(es) is None,
    decreases es.len() - i,
{
    if i == es.len() {
        assert(es.take(i) =~= es);
    } else {
        assert(es.take(i + 1).drop_last() =~= es.take(i));
        lemma_section_fold_none(es, i + 1);
    }
}

/// The ghost image of an extracted section held as a `Config`.
pub open spec fn section_view(c: Config) -> SectionV {
    SectionV {
        runners: match c.runners {
            Some(rs) => Some(rs@),
            None => None,
        },
        execution: c.execution,
        format: match c.format {
            Some(f) => Some(f@),
            None => None,
        },
        caption: c.caption,
    }
}

/// Extracts the execution settings of a front-matter section, exactly as
/// `extract_exec_cfg_spec` reads the value: a value of the wrong type
/// rejects the whole section, null and unknown keys are ignored.
fn extract_execution_config(y: &yaml_rust::Yaml) -> (r: Option<ExecutionConfig>)
    ensures
        match r {
            Some(c) => extract_exec_cfg_spec(*y) == Some(c),
            None => extract_exec_cfg_spec(*y) is None,
        },
{
    let entries = match crate::yamlio::yaml_as_hash_entries(y) {
        None => {
            return None;
        },
        Some(e) => e,
    };
    let ghost ges = entries@;
    let mut cfg = ExecutionConfig::new();
    let mut i: usize = 0;
    proof {
        assert(ges.take(0) =~= Seq::<(yaml_rust::Yaml, yaml_rust::Yaml)>::empty());
    }
    while i < entries.len()
        invariant
            entries@ == ges,
            crate::yamlio::yaml_entries_of(*y) == Some(ges),
            i <= ges.len(),
            exec_cfg_fold(ges.take(i as int)) == Some(cfg),
        decreases entries.len() - i,
    {
        let ghost gi = i as int;
        proof {
            assert(ges.take(gi + 1).drop_last() =~= ges.take(gi));
            assert(ges.take(gi + 1).last() == ges[gi]);
        }
        let k = match crate::yamlio::yaml_as_str(&entries[i].0) {
            None => {
                proof {
                    lemma_exec_cfg_fold_none(ges, gi + 1);
                }
                return None;
            },
            Some(s) => s,
        };
        if crate::text::str_eq(k.as_str(), "skipped") {
            if !crate::yamlio::yaml_is_null(&entries[i].1) {
                match crate::yamlio::yaml_as_bool(&entries[i].1) {
                    None => {
                        proof {
                            lemma_exec_cfg_fold_none(ges, gi + 1);
                        }
                        return None;
                    },
                    Some(b) => {
                        cfg.skipped = Some(b);
                    },
                }
            }
        }
        i += 1;
    }
    proof {
        assert(ges.take(ges.len() as int) =~= ges);
    }
    Some(cfg)
}

/// Reads one optional string field of a front-matter mapping entry, as
/// `opt_str_of` does.
fn extract_opt_string(y: &yaml_rust::Yaml) -> (r: Option<Option<String>>)
    ensures
        match r {
            Some(v) => opt_str_of(*y) == Some(crate::config::view_opt_str(v)),
            None => opt_str_of(*y) is None,
        },
{
    if crate::yamlio::yaml_is_null(y) {
        Some(None)
    } else {
        match crate::yamlio::yaml_as_str(y) {
            None => None,
            Some(s) => Some(Some(s)),
        }
    }
}

/// Reads one optional boolean field of a front-matter mapping entry, as
/// `opt_bool_of` does.
fn extract_opt_bool(y: &yaml_rust::Yaml) -> (r: Option<Option<bool>>)
    ensures
        r == opt_bool_of(*y),
{
    if crate::yamlio::yaml_is_null(y) {
        Some(None)
    } else {
        match crate::yamlio::yaml_as_bool(y) {
            None => None,
            Some(b) => Some(Some(b)),
        }
    }
}

/// Extracts the format settings of a front-matter section, under their
/// field names, exactly as `extract_format_cfg_spec` reads the value.
fn extract_format_config(y: &yaml_rust::Yaml) -> (r: Option<FormatConfig>)
    ensures
        match r {
            Some(c) => extract_format_cfg_spec(*y) == Some(c@),
            None => extract_format_cfg_spec(*y) is None,
        },
{
    let entries = match crate::yamlio::yaml_as_hash_entries(y) {
        None => {
            return None;
        },
        Some(e) => e,
    };
    let ghost ges = entries@;
    let mut cfg = FormatConfig::new();
    let mut i: usize = 0;
    proof {
        assert(ges.take(0) =~= Seq::<(yaml_rust::Yaml, yaml_rust::Yaml)>::empty());
    }
    while i < entries.len()
        invariant
            entries@ == ges,
            crate::yamlio::yaml_entries_of(*y) == Some(ges),
            i <= ges.len(),
            format_cfg_fold(ges.take(i as int)) == Some(cfg@),
        decreases entries.len() - i,
    {
        let ghost gi = i as int;
        proof {
            assert(ges.take(gi + 1).drop_last() =~= ges.take(gi));
            assert(ges.take(gi + 1).last() == ges[gi]);
        }
        let k = match crate::yamlio::yaml_as_str(&entries[i].0) {
            None => {
                proof {
                    lemma_format_cfg_fold_none(ges, gi + 1);
                }
                return None;
            },
            Some(s) => s,
        };
        let key = k.as_str();
        let v = &entries[i].1;
        if crate::text::str_eq(key, "stdin_hidden") {
            match extract_opt_bool(v) {
                None => {
                    proof {
                        lemma_format_cfg_fold_none(ges, gi + 1);
                    }
                    return None;
                },
                Some(x) => cfg.stdin_hidden = x,
            }
        } else if crate::text::str_eq(key, "stdin_caption_format") {
            match extract_opt_string(v) {
                None => {
                    proof {
                        lemma_format_cfg_fold_none(ges, gi + 1);
                    }
                    return None;
                },
                Some(x) => cfg.stdin_caption_format = x,
            }
        } else if crate::text::str_eq(key, "stdin_caption_hidden") {
            match extract_opt_bool(v) {
                None => {
                    proof {
                        lemma_format_cfg_fold_none(ges, gi + 1);
                    }
                    return None;
                },
                Some(x) => cfg.stdin_caption_hidden = x,
            }
        } else if crate::text::str_eq(key, "stdout_hidden") {
            match extract_opt_bool(v) {
                None => {
                    proof {
                        lemma_format_cfg_fold_none(ges, gi + 1);
                    }
                    return None;
                },
                Some(x) => cfg.stdout_hidden = x,
            }
        } else if crate::text::str_eq(key, "stdout_caption_format") {
            match extract_opt_string(v) {
                None => {
                    proof {
                        lemma_format_cfg_fold_none(ges, gi + 1);
                    }
                    return None;
                },
                Some(x) => cfg.stdout_caption_format = x,
            }
        } else if crate::text::str_eq(key, "stdout_caption_hidden") {
            match extract_opt_bool(v) {
                None => {
                    proof {
                        lemma_format_cfg_fold_none(ges, gi + 1);
                    }
                    return None;
                },
                Some(x) => cfg.stdout_caption_hidden = x,
            }
        } else if crate::text::str_eq(key, "stdout_info") {
            match extract_opt_string(v) {
                None => {
                    proof {
                        lemma_format_cfg_fold_none(ges, gi + 1);
                    }
                    return None;
                },
                Some(x) => cfg.stdout_info = x,
            }
        } else if crate::text::str_eq(key, "stderr_hidden") {
            match extract_opt_bool(v) {
                None => {
                    proof {
                        lemma_format_cfg_fold_none(ges, gi + 1);
                    }
                    return None;
                },
                Some(x) => cfg.stderr_hidden = x,
            }
        } else if crate::text::str_eq(key, "stderr_caption_format") {
            match extract_opt_string(v) {
                None => {
                    proof {
                        lemma_format_cfg_fold_none(ges, gi + 1);
                    }
                    return None;
                },
                Some(x) => cfg.stderr_caption_format = x,
            }
        } else if crate::text::str_eq(key, "stderr_caption_hidden") {
            match extract_opt_bool(v) {
                None => {
                    proof {
                        lemma_format_cfg_fold_none(ges, gi + 1);
                    }
                    return None;
                },
                Some(x) => cfg.stderr_caption_hidden = x,
            }
        } else if crate::text::str_eq(key, "stderr_info") {
            match extract_opt_string(v) {
                None => {
                    proof {
                        lemma_format_cfg_fold_none(ges, gi + 1);
                    }
                    return None;
                },
                Some(x) => cfg.stderr_info = x,
            }
        }
        i += 1;
    }
    proof {
        assert(ges.take(ges.len() as int) =~= ges);
    }
    Some(cfg)
}

/// The runner fields read so far, as the fold sees them.
pub open spec fn runner_acc_of(
    command: Option<Vec<String>>,
    name: Option<String>,
    special_comment_prefix: Option<String>,
    special_comment_suffix: Option<String>,
    exection: Option<ExecutionConfig>,
    format: Option<FormatConfig>,
) -> RunnerAccV {
    RunnerAccV {
        command: match command {
            Some(c) => Some(c.deep_view()),
            None => None,
        },
        name: crate::config::view_opt_str(name),
        special_comment_prefix: crate::config::view_opt_str(special_comment_prefix),
        special_comment_suffix: crate::config::view_opt_str(special_comment_suffix),
        exection,
        format: match format {
            Some(f) => Some(f@),
            None => None,
        },
    }
}

/// Extracts one runner definition of a front-matter section, exactly as
/// `extract_runner_cfg_spec` reads the value. A runner must name a
/// program: a missing or empty command list rejects it.
fn extract_runner_config(y: &yaml_rust::Yaml) -> (r: Option<RunnerConfig>)
    ensures
        match r {
            Some(rc) => extract_runner_cfg_spec(*y) == Some(rc@) && rc@.command.len() > 0,
            None => extract_runner_cfg_spec(*y) is None,
        },
{
    let entries = match crate::yamlio::yaml_as_hash_entries(y) {
        None => {
            return None;
        },
        Some(e) => e,
    };
    let ghost ges = entries@;
    let mut command: Option<Vec<String>> = None;
    let mut name: Option<String> = None;
    let mut special_comment_prefix: Option<String> = None;
    let mut special_comment_suffix: Option<String> = None;
    let mut exection: Option<ExecutionConfig> = None;
    let mut format: Option<FormatConfig> = None;
    let mut i: usize = 0;
    proof {
        assert(ges.take(0) =~= Seq::<(yaml_rust::Yaml, yaml_rust::Yaml)>::empty());
        assert(runner_acc_of(command, name, special_comment_prefix, special_comment_suffix, exection, format) =~= runner_acc_none());
    }
    while i < entries.len()
        invariant
            entries@ == ges,
            crate::yamlio::yaml_entries_of(*y) == Some(ges),
            i <= ges.len(),
            runner_cfg_fold(ges.take(i as int)) == Some(
                runner_acc_of(
                    command,
                    name,
                    special_comment_prefix,
                    special_comment_suffix,
                    exection,
                    format,
                ),
            ),
            command matches Some(c) ==> c@.len() > 0,
        decreases entries.len() - i,
    {
        let ghost gi = i as int;
        proof {
            assert(ges.take(gi + 1).drop_last() =~= ges.take(gi));
            assert(ges.take(gi + 1).last() == ges[gi]);
        }
        let k = match crate::yamlio::yaml_as_str(&entries[i].0) {
            None => {
                proof {
                    lemma_runner_cfg_fold_none(ges, gi + 1);
                }
                return None;
            },
            Some(s) => s,
        };
        let key = k.as_str();
        let v = &entries[i].1;
        if crate::text::str_eq(key, "command") {
            let items = match crate::yamlio::yaml_as_vec(v) {
                None => {
                    proof {
                        lemma_runner_cfg_fold_none(ges, gi + 1);
                    }
                    return None;
                },
                Some(items) => items,
            };
            let ghost gitems = items@;
            let mut cmd: Vec<String> = Vec::new();
            let mut j: usize = 0;
            proof {
                assert(gitems.take(0) =~= Seq::<yaml_rust::Yaml>::empty());
                assert(cmd.deep_view() =~= Seq::<Seq<char>>::empty());
            }
            while j < items.len()
                invariant
                    items@ == gitems,
                    j <= gitems.len(),
                    strs_of(gitems.take(j as int)) == Some(cmd.deep_view()),
                    entries@ == ges,
                    crate::yamlio::yaml_entries_of(*y) == Some(ges),
                    gi == i as int,
                    0 <= gi < ges.len(),
                    runner_cfg_fold(ges.take(gi)) == Some(
                        runner_acc_of(
                            command,
                            name,
                            special_comment_prefix,
                            special_comment_suffix,
                            exection,
                            format,
                        ),
                    ),
                    crate::yamlio::yaml_str_of(ges[gi].0) == Some("command"@),
                    crate::yamlio::yaml_vec_of(ges[gi].1) == Some(gitems),
                decreases items.len() - j,
            {
                let ghost gj = j as int;
                proof {
                    assert(gitems.take(gj + 1).drop_last() =~= gitems.take(gj));
                    assert(gitems.take(gj + 1).last() == gitems[gj]);
                }
                match crate::yamlio::yaml_as_str(&items[j]) {
                    None => {
                        proof {
                            lemma_strs_of_none(gitems, gj + 1);
                            assert(ges.take(gi + 1).drop_last() =~= ges.take(gi));
                            assert(ges.take(gi + 1).last() == ges[gi]);
                            lemma_runner_cfg_fold_none(ges, gi + 1);
                        }
                        return None;
                    },
                    Some(sv) => {
                        let ghost prev_deep = cmd.deep_view();
                        cmd.push(sv);
                        proof {
                            assert(cmd.deep_view() =~= prev_deep.push(cmd@.last()@));
                        }
                    },
                }
                j += 1;
            }
            proof {
                assert(gitems.take(gitems.len() as int) =~= gitems);
            }
            if cmd.len() == 0 {
                proof {
                    lemma_runner_cfg_fold_none(ges, gi + 1);
                }
                return None;
            }
            command = Some(cmd);
        } else if crate::text::str_eq(key, "name") {
            match extract_opt_string(v) {
                None => {
                    proof {
                        lemma_runner_cfg_fold_none(ges, gi + 1);
                    }
                    return None;
                },
                Some(sv) => name = sv,
            }
        } else if crate::text::str_eq(key, "special_comment_prefix") {
            match extract_opt_string(v) {
                None => {
                    proof {
                        lemma_runner_cfg_fold_none(ges, gi + 1);
                    }
                    return None;
                },
                Some(sv) => special_comment_prefix = sv,
            }
        } else if crate::text::str_eq(key, "special_comment_suffix") {
            match extract_opt_string(v) {
                None => {
                    proof {
                        lemma_runner_cfg_fold_none(ges, gi + 1);
                    }
                    return None;
                },
                Some(sv) => special_comment_suffix = sv,
            }
        } else if crate::text::str_eq(key, "exection") {
            if !crate::yamlio::yaml_is_null(v) {
                match extract_execution_config(v) {
                    None => {
                        proof {
                            lemma_runner_cfg_fold_none(ges, gi + 1);
                        }
                        return None;
                    },
                    Some(e) => exection = Some(e),
                }
            }
        } else if crate::text::str_eq(key, "format") {
            if !crate::yamlio::yaml_is_null(v) {
                match extract_format_config(v) {
                    None => {
                        proof {
                            lemma_runner_cfg_fold_none(ges, gi + 1);
                        }
                        return None;
                    },
                    Some(f) => format = Some(f),
                }
            }
        }
        i += 1;
    }
    proof {
        assert(ges.take(ges.len() as int) =~= ges);
    }
    match command {
        None => None,
        Some(cmd) => {
            let rc = RunnerConfig {
                command: cmd,
                name,
                special_comment_prefix,
                special_comment_suffix,
                exection,
                format,
            };
            proof {
                assert(extract_runner_cfg_spec(*y) == Some(rc@));
            }
            Some(rc)
        },
    }
}

/// Extracts the runner registry of a front-matter section, exactly as
/// `extract_runners_spec` reads the value.
fn extract_runners(y: &yaml_rust::Yaml) -> (r: Option<crate::config::Runners>)
    ensures
        match r {
            Some(rs) => extract_runners_spec(*y) == Some(rs@) && crate::config::runners_wf(rs@),
            None => extract_runners_spec(*y) is None,
        },
{
    let entries = match crate::yamlio::yaml_as_hash_entries(y) {
        None => {
            return None;
        },
        Some(e) => e,
    };
    let ghost ges = entries@;
    let mut rs = crate::config::Runners::new();
    let mut i: usize = 0;
    proof {
        assert(ges.take(0) =~= Seq::<(yaml_rust::Yaml, yaml_rust::Yaml)>::empty());
    }
    while i < entries.len()
        invariant
            entries@ == ges,
            crate::yamlio::yaml_entries_of(*y) == Some(ges),
            i <= ges.len(),
            runners_fold(ges.take(i as int)) == Some(rs@),
            crate::config::runners_wf(rs@),
        decreases entries.len() - i,
    {
        let ghost gi = i as int;
        proof {
            assert(ges.take(gi + 1).drop_last() =~= ges.take(gi));
            assert(ges.take(gi + 1).last() == ges[gi]);
        }
        let k = match crate::yamlio::yaml_as_str(&entries[i].0) {
            None => {
                proof {
                    lemma_runners_fold_none(ges, gi + 1);
                }
                return None;
            },
            Some(s) => s,
        };
        let rc = match extract_runner_config(&entries[i].1) {
            None => {
                proof {
                    lemma_runners_fold_none(ges, gi + 1);
                }
                return None;
            },
            Some(rc) => rc,
        };
        let ghost prev = rs@;
        rs.insert(k, rc);
        proof {
            assert forall|ix: int| 0 <= ix < rs@.len() implies (#[trigger] rs@[ix]).1.command.len()
                > 0 by {
                if !(ix < prev.len() && rs@[ix] == prev[ix]) {
                }
            }
        }
        i += 1;
    }
    proof {
        assert(ges.take(ges.len() as int) =~= ges);
    }
    Some(rs)
}

/// The section parts read so far, as the fold sees them.
pub open spec fn section_acc_of(
    runners: Option<crate::config::Runners>,
    execution: Option<ExecutionConfig>,
    format: Option<FormatConfig>,
    caption: Option<bool>,
) -> SectionV {
    SectionV {
        runners: match runners {
            Some(rs) => Some(rs@),
            None => None,
        },
        execution,
        format: match format {
            Some(f) => Some(f@),
            None => None,
        },
        caption,
    }
}

/// Extracts the whole reserved front-matter section, exactly as
/// `extract_config_spec` reads the value: runner definitions and default
/// execution and format settings.
fn extract_config(y: &yaml_rust::Yaml) -> (r: Option<Config>)
    ensures
        match r {
            Some(c) => extract_config_spec(*y) == Some(section_view(c)) && (match c.runners {
                Some(rs) => crate::config::runners_wf(rs@),
                None => true,
            }),
            None => extract_config_spec(*y) is None,
        },
{
    let entries = match crate::yamlio::yaml_as_hash_entries(y) {
        None => {
            return None;
        },
        Some(e) => e,
    };
    let ghost ges = entries@;
    let mut runners: Option<crate::config::Runners> = None;
    let mut execution: Option<ExecutionConfig> = None;
    let mut format: Option<FormatConfig> = None;
    let mut caption: Option<bool> = None;
    let mut i: usize = 0;
    proof {
        assert(ges.take(0) =~= Seq::<(yaml_rust::Yaml, yaml_rust::Yaml)>::empty());
        assert(section_acc_of(runners, execution, format, caption) =~= section_none());
    }
    while i < entries.len()
        invariant
            entries@ == ges,
            crate::yamlio::yaml_entries_of(*y) == Some(ges),
            i <= ges.len(),
            section_fold(ges.take(i as int)) == Some(
                section_acc_of(runners, execution, format, caption),
            ),
            match runners {
                Some(rs) => crate::config::runners_wf(rs@),
                None => true,
            },
        decreases entries.len() - i,
    {
        let ghost gi = i as int;
        proof {
            assert(ges.take(gi + 1).drop_last() =~= ges.take(gi));
            assert(ges.take(gi + 1).last() == ges[gi]);
        }
        let k = match crate::yamlio::yaml_as_str(&entries[i].0) {
            None => {
                proof {
                    lemma_section_fold_none(ges, gi + 1);
                }
                return None;
            },
            Some(s) => s,
        };
        let key = k.as_str();
        let v = &entries[i].1;
        if crate::text::str_eq(key, "runners") {
            if !crate::yamlio::yaml_is_null(v) {
                match extract_runners(v) {
                    None => {
                        proof {
                            lemma_section_fold_none(ges, gi + 1);
                        }
                        return None;
                    },
                    Some(rs) => runners = Some(rs),
                }
            }
        } else if crate::text::str_eq(key, "execution") {
            if !crate::yamlio::yaml_is_null(v) {
                match extract_execution_config(v) {
                    None => {
                        proof {
                            lemma_section_fold_none(ges, gi + 1);
                        }
                        return None;
                    },
                    Some(e) => execution = Some(e),
                }
            }
        } else if crate::text::str_eq(key, "format") {
            if !crate::yamlio::yaml_is_null(v) {
                match extract_format_config(v) {
                    None => {
                        proof {
                            lemma_section_fold_none(ges, gi + 1);
                        }
                        return None;
                    },
                    Some(f) => format = Some(f),
                }
            }
        } else if crate::text::str_eq(key, "caption") {
            match extract_opt_bool(v) {
                None => {
                    proof {
                        lemma_section_fold_none(ges, gi + 1);
                    }
                    return None;
                },
                Some(b) => caption = b,
            }
        }
        i += 1;
    }
    proof {
        assert(ges.take(ges.len() as int) =~= ges);
    }
    let c = Config { execution, format, runners, caption };
    proof {
        assert(section_view(c) =~= section_acc_of(c.runners, c.execution, c.format, c.caption));
    }
    Some(c)
}

/// Whether an entry's key is the reserved `mddux` key.
pub open spec fn fm_reserved_key(k: yaml_rust::Yaml) -> bool {
    crate::yamlio::yaml_str_of(k) == Some("mddux"@)
}

/// The mapping entries that survive into the rewritten front matter:
/// every entry whose key is not the reserved one, in order.
pub open spec fn fm_retained(entries: Seq<(yaml_rust::Yaml, yaml_rust::Yaml)>) -> Seq<
    (yaml_rust::Yaml, yaml_rust::Yaml),
>
    decreases entries.len(),
{
    if entries.len() == 0 {
        Seq::empty()
    } else {
        fm_retained(entries.drop_last()) + (if fm_reserved_key(entries.last().0) {
            Seq::empty()
        } else {
            seq![entries.last()]
        })
    }
}

/// The reserved entry's value, if one stands among the entries: the
/// first, though a YAML mapping cannot carry the key twice.
pub open spec fn fm_reserved(entries: Seq<(yaml_rust::Yaml, yaml_rust::Yaml)>) -> Option<
    yaml_rust::Yaml,
>
    decreases entries.len(),
{
    if entries.len() == 0 {
        None
    } else {
        match fm_reserved(entries.drop_last()) {
            Some(v) => Some(v),
            None => if fm_reserved_key(entries.last().0) {
                Some(entries.last().1)
            } else {
                None
            },
        }
    }
}

/// The first document's mapping entries, if the stream has a document
/// and it is a mapping.
pub open spec fn fm_doc_entries(docs: Seq<yaml_rust::Yaml>) -> Option<
    Seq<(yaml_rust::Yaml, yaml_rust::Yaml)>,
> {
    if docs.len() == 0 {
        None
    } else {
        crate::yamlio::yaml_entries_of(docs[0])
    }
}

/// The reserved section the front matter carries, if any.
pub open spec fn fm_section(docs: Seq<yaml_rust::Yaml>) -> Option<yaml_rust::Yaml> {
    match fm_doc_entries(docs) {
        None => None,
        Some(entries) => fm_reserved(entries),
    }
}

/// Whether re-emitting the retained entries fails.
pub open spec fn fm_emit_failed(docs: Seq<yaml_rust::Yaml>) -> bool {
    match fm_doc_entries(docs) {
        None => false,
        Some(entries) => {
            let kept = fm_retained(entries);
            kept.len() > 0 && crate::yamlio::yaml_emit_of(crate::yamlio::yaml_hash_of(kept)) is None
        },
    }
}

/// The bytes that stand in the rewritten document for this front matter:
/// the input unchanged when there is no mapping to filter, nothing when
/// only the reserved key stood there, else the retained entries
/// re-emitted with the closing document markers.
pub open spec fn fm_result_bytes(bs: Seq<u8>, docs: Seq<yaml_rust::Yaml>) -> Seq<u8> {
    match fm_doc_entries(docs) {
        None => bs,
        Some(entries) => {
            let kept = fm_retained(entries);
            if kept.len() == 0 {
                Seq::empty()
            } else {
                vstd::utf8::encode_utf8(
                    crate::yamlio::yaml_emit_of(crate::yamlio::yaml_hash_of(kept)).unwrap(),
                ) + vstd::utf8::encode_utf8("\n---\n\n"@)
            }
        },
    }
}

/// How a merged reserved section relates the new environment to the old:
/// the section's runners registered in order, its defaults overlaid where
/// present.
pub open spec fn section_merged_env(
    olde: crate::executor::ExecutionEnvironmentV,
    sv: SectionV,
    newe: crate::executor::ExecutionEnvironmentV,
) -> bool {
    &&& newe.runners == crate::config::merge_runners_view(
        olde.runners,
        match sv.runners {
            Some(rs) => rs,
            None => Seq::empty(),
        },
    )
    &&& newe.execution == (match sv.execution {
        Some(e) => ExecutionConfig {
            skipped: crate::config::overlay(olde.execution.skipped, e.skipped),
        },
        None => olde.execution,
    })
    &&& newe.format == (match sv.format {
        Some(f) => crate::config::format_apply_spec(olde.format, f),
        None => olde.format,
    })
}

/// What one front-matter node does to the environment, as a function of
/// its bytes: nothing when it carries no reserved section or an unusable
/// one, else the merge of the extracted section.
pub open spec fn fm_env_step(
    b: Seq<u8>,
    olde: crate::executor::ExecutionEnvironmentV,
    newe: crate::executor::ExecutionEnvironmentV,
) -> bool {
    match fm_section(crate::yamlio::yaml_docs_of(crate::content::utf8_decode_of(b))) {
        None => newe == olde,
        Some(sec) => match extract_config_spec(sec) {
            None => newe == olde,
            Some(sv) => section_merged_env(olde, sv, newe),
        },
    }
}

/// Merges one reserved front-matter section into the environment: its
/// runner definitions registered in order (a later definition of the same
/// tag replacing an earlier one), its execution and format defaults
/// overlaid.
pub fn apply_front_matter_section(state: &mut MdduxState, section: &Config)
    requires
        crate::config::runners_wf(old(state).environment@.runners),
        match section.runners {
            Some(rs) => crate::config::runners_wf(rs@),
            None => true,
        },
    ensures
        final(state).contents == old(state).contents,
        final(state).executions == old(state).executions,
        final(state).code_block_to_execution == old(state).code_block_to_execution,
        final(state).execution_configs == old(state).execution_configs,
        final(state).format_configs == old(state).format_configs,
        final(state).front_matter == old(state).front_matter,
        crate::config::runners_wf(final(state).environment@.runners),
        section_merged_env(
            old(state).environment@,
            section_view(*section),
            final(state).environment@,
        ),
{
    if let Some(runners) = &section.runners {
        let ghost base = state.environment.runners@;
        let n = runners.len();
        let mut i: usize = 0;
        while i < n
            invariant
                n == runners@.len(),
                i <= n,
                crate::config::runners_wf(runners@),
                crate::config::runners_wf(state.environment@.runners),
                state.environment.runners@ == crate::config::merge_runners_view(
                    base,
                    runners@.take(i as int),
                ),
                state.environment.execution == old(state).environment.execution,
                state.environment.format == old(state).environment.format,
                state.contents == old(state).contents,
                state.executions == old(state).executions,
                state.code_block_to_execution == old(state).code_block_to_execution,
                state.execution_configs == old(state).execution_configs,
                state.format_configs == old(state).format_configs,
                state.front_matter == old(state).front_matter,
            decreases n - i,
        {
            let (k, v) = runners.entry_at(i);
            let key = k.clone();
            let value = v.clone();
            let ghost prev = state.environment.runners@;
            proof {
                assert((key@, value@) == runners@[i as int]);
            }
            state.environment.runners.insert(key, value);
            proof {
                assert(runners@.take(i as int + 1).drop_last() =~= runners@.take(i as int));
                assert(runners@.take(i as int + 1).last() == runners@[i as int]);
                assert(state.environment.runners@ == crate::config::merge_runners_view(
                    base,
                    runners@.take(i as int + 1),
                ));
                assert forall|ix: int|
                    0 <= ix < state.environment.runners@.len() implies (
                #[trigger] state.environment.runners@[ix]).1.command.len() > 0 by {
                    if !(ix < prev.len() && state.environment.runners@[ix] == prev[ix]) {
                    }
                }
            }
            i += 1;
        }
        proof {
            assert(runners@.take(n as int) =~= runners@);
        }
    } else {
        proof {
            assert(crate::config::merge_runners_view(
                state.environment.runners@,
                Seq::empty(),
            ) == state.environment.runners@);
        }
    }
    if let Some(e) = &section.execution {
        state.environment.execution.apply(e);
    }
    if let Some(f) = &section.format {
        state.environment.format.apply(f);
    }
}

/// Processes a front-matter node: splits off the reserved section, merges
/// its runners and defaults into the environment, and returns the bytes
/// that will stand in the rewritten document (the remaining keys,
/// re-emitted, or nothing when none remain). Undecodable or unparseable
/// front matter is fatal; an unusable reserved section is ignored.
pub fn parse_front_matter(state: &mut MdduxState, bs: &Vec<u8>) -> (r: Result<
    Vec<u8>,
    crate::executor::MdduxError,
>)
    requires
        crate::config::runners_wf(old(state).environment@.runners),
    ensures
        final(state).contents == old(state).contents,
        final(state).executions == old(state).executions,
        final(state).code_block_to_execution == old(state).code_block_to_execution,
        final(state).execution_configs == old(state).execution_configs,
        final(state).format_configs == old(state).format_configs,
        final(state).front_matter == old(state).front_matter,
        crate::config::runners_wf(final(state).environment@.runners),
        (r matches Err(e) && e is FrontMatterEncoding) <==> !vstd::utf8::valid_utf8(bs@),
        (r matches Err(e) && e is FrontMatterYaml) <==> (vstd::utf8::valid_utf8(bs@)
            && !crate::yamlio::yaml_scan_ok(crate::content::utf8_decode_of(bs@))),
        (r matches Err(e) && e is FrontMatterEmit) <==> (vstd::utf8::valid_utf8(bs@)
            && crate::yamlio::yaml_scan_ok(crate::content::utf8_decode_of(bs@))
            && fm_emit_failed(
            crate::yamlio::yaml_docs_of(crate::content::utf8_decode_of(bs@)),
        )),
        r is Err ==> (r matches Err(e) && (e is FrontMatterEncoding || e is FrontMatterYaml
            || e is FrontMatterEmit)),
        r matches Ok(res) ==> res@ == fm_result_bytes(
            bs@,
            crate::yamlio::yaml_docs_of(crate::content::utf8_decode_of(bs@)),
        ),
        r is Ok && fm_section(
            crate::yamlio::yaml_docs_of(crate::content::utf8_decode_of(bs@)),
        ) is None ==> final(state).environment == old(state).environment,
        r is Ok ==> fm_env_step(bs@, old(state).environment@, final(state).environment@),
{
    let s = match crate::content::utf8_to_string(bs) {
        None => {
            return Err(crate::executor::MdduxError::FrontMatterEncoding);
        },
        Some(s) => s,
    };
    let docs = match crate::yamlio::yaml_load_docs(s.as_str()) {
        None => {
            return Err(crate::executor::MdduxError::FrontMatterYaml);
        },
        Some(d) => d,
    };
    let ghost gdocs = crate::yamlio::yaml_docs_of(crate::content::utf8_decode_of(bs@));
    proof {
        assert(docs@ == gdocs);
    }
    if docs.len() == 0 {
        let res = crate::content::clone_bytes(bs);
        proof {
            assert(res@ == fm_result_bytes(bs@, gdocs));
        }
        return Ok(res);
    }
    let mut new_bs: Vec<u8> = crate::content::clone_bytes(bs);
    let mut mddux_val: Option<yaml_rust::Yaml> = None;
    match crate::yamlio::yaml_as_hash_entries(&docs[0]) {
        None => {
            proof {
                assert(fm_doc_entries(gdocs) is None);
                assert(new_bs@ == fm_result_bytes(bs@, gdocs));
            }
        },
        Some(entries) => {
            let ghost gentries = entries@;
            proof {
                assert(fm_doc_entries(gdocs) == Some(gentries));
            }
            let mut retained: Vec<(yaml_rust::Yaml, yaml_rust::Yaml)> = Vec::new();
            let mut i: usize = 0;
            proof {
                assert(gentries.take(0) =~= Seq::<(yaml_rust::Yaml, yaml_rust::Yaml)>::empty());
            }
            while i < entries.len()
                invariant
                    entries@ == gentries,
                    i <= gentries.len(),
                    retained@ == fm_retained(gentries.take(i as int)),
                    mddux_val == fm_reserved(gentries.take(i as int)),
                decreases entries.len() - i,
            {
                let ghost gi = i as int;
                proof {
                    assert(gentries.take(gi + 1).drop_last() =~= gentries.take(gi));
                    assert(gentries.take(gi + 1).last() == gentries[gi]);
                }
                let is_reserved = match crate::yamlio::yaml_as_str(&entries[i].0) {
                    Some(k) => crate::text::str_eq(k.as_str(), "mddux"),
                    None => false,
                };
                proof {
                    assert(is_reserved == fm_reserved_key(gentries[gi].0));
                }
                if is_reserved {
                    if mddux_val.is_none() {
                        mddux_val = Some(crate::yamlio::yaml_clone(&entries[i].1));
                    }
                } else {
                    let ghost prev_retained = retained@;
                    let rk = crate::yamlio::yaml_clone(&entries[i].0);
                    let rv = crate::yamlio::yaml_clone(&entries[i].1);
                    proof {
                        assert((rk, rv) == gentries[gi]);
                    }
                    retained.push((rk, rv));
                    proof {
                        assert(retained@ =~= prev_retained + seq![gentries[gi]]);
                    }
                }
                i += 1;
            }
            proof {
                assert(gentries.take(gentries.len() as int) =~= gentries);
            }
            new_bs = Vec::new();
            if retained.len() > 0 {
                let h = crate::yamlio::yaml_hash_from_entries(retained);
                let emitted = match crate::yamlio::yaml_emit_doc(&h) {
                    None => {
                        proof {
                            assert(fm_emit_failed(gdocs));
                        }
                        return Err(crate::executor::MdduxError::FrontMatterEmit);
                    },
                    Some(s2) => s2,
                };
                new_bs = emitted.as_str().as_bytes_vec();
                let mut tail = "\n---\n\n".as_bytes_vec();
                new_bs.append(&mut tail);
                proof {
                    assert(new_bs@ == fm_result_bytes(bs@, gdocs));
                }
            } else {
                proof {
                    assert(new_bs@ =~= Seq::<u8>::empty());
                    assert(new_bs@ == fm_result_bytes(bs@, gdocs));
                }
            }
        },
    }
    let mddux = match mddux_val {
        None => {
            proof {
                assert(fm_section(gdocs) is None);
            }
            return Ok(new_bs);
        },
        Some(y) => y,
    };
    proof {
        assert(fm_section(gdocs) == Some(mddux));
    }
    match extract_config(&mddux) {
        None => {
            proof {
                assert(extract_config_spec(mddux) is None);
            }
            Ok(new_bs)
        },
        Some(section) => {
            apply_front_matter_section(state, &section);
            proof {
                assert(extract_config_spec(mddux) == Some(section_view(section)));
                assert(fm_env_step(bs@, old(state).environment@, state.environment@));
            }
            Ok(new_bs)
        },
    }
}

/// The execution index behind each mapped block, in block order. The
/// planner maps blocks to executions injectively and in order: this
/// sequence is exactly 0, 1, 2, ...
pub open spec fn mapped_indices(m: Seq<Option<usize>>) -> Seq<int>
    decreases m.len(),
{
    if m.len() == 0 {
        Seq::empty()
    } else {
        mapped_indices(m.drop_last()) + (match m.last() {
            Some(e) => seq![e as int],
            None => Seq::empty(),
        })
    }
}

/// Whether one front-matter node's bytes pass every step that can fail:
/// they decode, the YAML scans, and the retained entries re-emit.
pub open spec fn fm_bytes_ok(b: Seq<u8>) -> bool {
    &&& vstd::utf8::valid_utf8(b)
    &&& crate::yamlio::yaml_scan_ok(crate::content::utf8_decode_of(b))
    &&& !fm_emit_failed(crate::yamlio::yaml_docs_of(crate::content::utf8_decode_of(b)))
}

/// Whether the document carries at most one front-matter node.
pub open spec fn single_fm(doc: Seq<MdNode>) -> bool {
    forall|j: int|
        0 <= j < doc.len() && crate::document::is_front_matter(#[trigger] doc[j]) ==> j == first_fm(
            doc,
        )
}

/// How many of these per-block configurations are not skipped: the count
/// of visible execution numbers they consume.
pub open spec fn num_unskipped(cfgs: Seq<ExecutionConfig>) -> int
    decreases cfgs.len(),
{
    if cfgs.len() == 0 {
        0
    } else {
        num_unskipped(cfgs.drop_last()) + if cfgs.last().skipped == Some(true) {
            0int
        } else {
            1int
        }
    }
}

pub proof fn lemma_num_unskipped_le(cfgs: Seq<ExecutionConfig>)
    ensures
        0 <= num_unskipped(cfgs) <= cfgs.len(),
    decreases cfgs.len(),
{
    if cfgs.len() > 0 {
        lemma_num_unskipped_le(cfgs.drop_last());
    }
}

/// The planned tables of `p` stand, in order, at the head of the state's
/// tables.
pub open spec fn plan_extends(p: PlanV, st: MdduxState) -> bool {
    &&& p.contents.len() <= st.contents@.len()
    &&& forall|i: int| 0 <= i < p.contents.len() ==> (#[trigger] st.contents@[i])@ == p.contents[i]
    &&& p.executions.len() <= st.executions@.len()
    &&& forall|i: int|
        0 <= i < p.executions.len() ==> exec_view(#[trigger] st.executions@[i]) == p.executions[i]
    &&& p.mapping.len() <= st.code_block_to_execution@.len()
    &&& forall|i: int|
        0 <= i < p.mapping.len() ==> (match #[trigger] st.code_block_to_execution@[i] {
            Some(x) => Some(x as int),
            None => None::<int>,
        }) == p.mapping[i]
    &&& p.exec_configs.len() <= st.execution_configs@.len()
    &&& forall|i: int|
        0 <= i < p.exec_configs.len() ==> #[trigger] st.execution_configs@[i] == p.exec_configs[i]
    &&& p.format_configs.len() <= st.format_configs@.len()
    &&& forall|i: int|
        0 <= i < p.format_configs.len() ==> (#[trigger] st.format_configs@[i])@
            == p.format_configs[i]
}

/// The planned tables of `p` are exactly the state's tables.
pub open spec fn plan_exact(p: PlanV, st: MdduxState) -> bool {
    &&& plan_extends(p, st)
    &&& p.contents.len() == st.contents@.len()
    &&& p.executions.len() == st.executions@.len()
    &&& p.mapping.len() == st.code_block_to_execution@.len()
    &&& p.exec_configs.len() == st.execution_configs@.len()
    &&& p.format_configs.len() == st.format_configs@.len()
}

/// Every execution carries the visible number that the non-skipped
/// blocks before it have reached: a skipped block does not consume a
/// number.
pub open spec fn numbering_ok(st: MdduxState) -> bool {
    forall|i: int|
        0 <= i < st.executions@.len() ==> (#[trigger] st.executions@[i]).execution_count as int == 1
            + num_unskipped(st.execution_configs@.take(i))
}

/// Freshly planned executions: nothing has run, and every stdin is kept
/// as bytes.
pub open spec fn fresh_marks(st: MdduxState) -> bool {
    forall|i: int|
        0 <= i < st.executions@.len() ==> (#[trigger] st.executions@[i]).output is None
            && st.executions@[i].input.stdin is Binary
}

proof fn lemma_plan_view_exact(p: PlanV, st: MdduxState, count: int)
    requires
        state_plan_view(st, count) == p,
    ensures
        plan_exact(p, st),
{
    assert(st.contents@.map_values(|s: String| s@).len() == st.contents@.len());
    assert forall|i: int| 0 <= i < p.contents.len() implies (#[trigger] st.contents@[i])@
        == p.contents[i] by {
        assert(p.contents[i] == st.contents@.map_values(|s: String| s@)[i]);
    }
    assert forall|i: int|
        0 <= i < p.executions.len() implies exec_view(#[trigger] st.executions@[i])
        == p.executions[i] by {
        assert(p.executions[i] == st.executions@.map_values(|e: Execution| exec_view(e))[i]);
    }
    assert forall|i: int|
        0 <= i < p.mapping.len() implies (match #[trigger] st.code_block_to_execution@[i] {
        Some(x) => Some(x as int),
        None => None::<int>,
    }) == p.mapping[i] by {
        assert(p.mapping[i] == st.code_block_to_execution@.map_values(
            |o: Option<usize>|
                match o {
                    Some(x) => Some(x as int),
                    None => None::<int>,
                },
        )[i]);
    }
    assert forall|i: int|
        0 <= i < p.format_configs.len() implies (#[trigger] st.format_configs@[i])@
        == p.format_configs[i] by {
        assert(p.format_configs[i] == st.format_configs@.map_values(|f: FormatConfig| f@)[i]);
    }
}

/// Walks the document in order and plans it: front matter grows the
/// environment as it is met, so a runner defined in front matter governs
/// only the blocks after it; every code block is planned against the
/// environment standing at its position.
pub fn parse(state: &mut MdduxState, conf: &Config, doc: &Vec<MdNode>) -> (r: Result<
    (),
    crate::executor::MdduxError,
>)
    requires
        old(state).wf(),
        crate::config::runners_wf(old(state).environment@.runners),
        old(state).contents@.len() == 0,
        old(state).executions@.len() == 0,
        old(state).code_block_to_execution@.len() == 0,
        old(state).execution_configs@.len() == 0,
        old(state).format_configs@.len() == 0,
        doc@.len() < 0x7fff_ffff,
    ensures
        final(state).wf(),
        crate::config::runners_wf(final(state).environment@.runners),
        crate::document::fm_free(doc@) ==> r is Ok,
        r matches Err(e) ==> !crate::document::fm_free(doc@) && (e is FrontMatterEncoding
            || e is FrontMatterYaml || e is FrontMatterEmit),
        ({
            let f = first_fm(doc@);
            f < doc@.len() && !vstd::utf8::valid_utf8(doc@[f]->FrontMatter_0@)
        }) ==> (r matches Err(e) && e is FrontMatterEncoding),
        ({
            let f = first_fm(doc@);
            let b = doc@[f]->FrontMatter_0@;
            f < doc@.len() && vstd::utf8::valid_utf8(b) && !crate::yamlio::yaml_scan_ok(
                crate::content::utf8_decode_of(b),
            )
        }) ==> (r matches Err(e) && e is FrontMatterYaml),
        ({
            let f = first_fm(doc@);
            let b = doc@[f]->FrontMatter_0@;
            f < doc@.len() && vstd::utf8::valid_utf8(b) && crate::yamlio::yaml_scan_ok(
                crate::content::utf8_decode_of(b),
            ) && fm_emit_failed(crate::yamlio::yaml_docs_of(crate::content::utf8_decode_of(b)))
        }) ==> (r matches Err(e) && e is FrontMatterEmit),
        r is Ok && single_fm(doc@) && first_fm(doc@) < doc@.len() ==> (final(
            state).front_matter matches Some(fb) && fb@ == fm_result_bytes(
            doc@[first_fm(doc@)]->FrontMatter_0@,
            crate::yamlio::yaml_docs_of(
                crate::content::utf8_decode_of(doc@[first_fm(doc@)]->FrontMatter_0@),
            ),
        )),
        r is Ok ==> exists|envs: Seq<crate::executor::ExecutionEnvironmentV>|
            {
                &&& envs.len() == doc@.len() + 1
                &&& envs[0] == old(state).environment@
                &&& envs[doc@.len() as int] == final(state).environment@
                &&& forall|j: int|
                    0 <= j < doc@.len() && !crate::document::is_front_matter(doc@[j])
                        ==> #[trigger] envs[j + 1] == envs[j]
                &&& forall|j: int|
                    0 <= j < doc@.len() && crate::document::is_front_matter(doc@[j])
                        ==> #[trigger] fm_env_step(doc@[j]->FrontMatter_0@, envs[j], envs[j + 1])
                &&& plan_exact(#[trigger] plan_spec_envs(envs, doc@), *final(state))
            },
        r is Ok ==> {
            &&& plan_extends(
                plan_spec(old(state).environment@, doc@.take(first_fm(doc@))),
                *final(state),
            )
            &&& final(state).code_block_to_execution@.len() == count_code_blocks(doc@)
            &&& mapped_indices(final(state).code_block_to_execution@) == Seq::new(
                final(state).executions@.len() as nat,
                |i: int| i,
            )
            &&& numbering_ok(*final(state))
            &&& fresh_marks(*final(state))
            &&& crate::document::fm_free(doc@) ==> plan_exact(
                plan_spec(old(state).environment@, doc@),
                *final(state),
            ) && final(state).environment@ == old(state).environment@ && final(state).front_matter
                == old(state).front_matter
        },
{
    let ghost env0 = old(state).environment@;
    let ghost mut envs: Seq<crate::executor::ExecutionEnvironmentV> = seq![env0];
    let mut code_block_index: usize = 0;
    let mut execution_count: i32 = 1;
    let mut j: usize = 0;
    proof {
        crate::document::lemma_first_fm_bounds(doc@);
        assert(doc@.take(0) =~= Seq::<MdNode>::empty());
        assert(state_plan_view(*state, 1) =~= plan_spec(env0, doc@.take(0)));
        assert(mapped_indices(state.code_block_to_execution@) =~= Seq::new(
            state.executions@.len() as nat,
            |i: int| i,
        ));
        assert(plan_spec_envs(envs, doc@.take(0)) == plan_empty());
        assert(state_plan_view(*state, 1) =~= plan_spec_envs(envs, doc@.take(0)));
    }
    while j < doc.len()
        invariant
            state.wf(),
            crate::config::runners_wf(state.environment@.runners),
            j <= doc.len(),
            doc@.len() < 0x7fff_ffff,
            code_block_index == state.code_block_to_execution@.len(),
            code_block_index <= j,
            state.code_block_to_execution@.len() == count_code_blocks(doc@.take(j as int)),
            state.executions@.len() <= j,
            1 <= execution_count,
            execution_count as int == 1 + num_unskipped(state.execution_configs@),
            numbering_ok(*state),
            fresh_marks(*state),
            mapped_indices(state.code_block_to_execution@) == Seq::new(
                state.executions@.len() as nat,
                |i: int| i,
            ),
            envs.len() == j + 1,
            envs[0] == env0,
            envs[j as int] == state.environment@,
            forall|t: int|
                0 <= t < j && !crate::document::is_front_matter(doc@[t]) ==> #[trigger] envs[t
                    + 1] == envs[t],
            forall|t: int|
                0 <= t < j && crate::document::is_front_matter(doc@[t])
                    ==> #[trigger] fm_env_step(doc@[t]->FrontMatter_0@, envs[t], envs[t + 1]),
            state_plan_view(*state, execution_count as int) == plan_spec_envs(
                envs,
                doc@.take(j as int),
            ),
            j as int > first_fm(doc@) ==> fm_bytes_ok(
                doc@[first_fm(doc@)]->FrontMatter_0@,
            ),
            single_fm(doc@) && j as int > first_fm(doc@) ==> (
            state.front_matter matches Some(fb) && fb@ == fm_result_bytes(
                doc@[first_fm(doc@)]->FrontMatter_0@,
                crate::yamlio::yaml_docs_of(
                    crate::content::utf8_decode_of(doc@[first_fm(doc@)]->FrontMatter_0@),
                ),
            )),
            j as int <= first_fm(doc@) ==> state_plan_view(*state, execution_count as int)
                == plan_spec(env0, doc@.take(j as int)) && state.environment@ == env0
                && state.front_matter == old(state).front_matter,
            j as int > first_fm(doc@) ==> plan_extends(
                plan_spec(env0, doc@.take(first_fm(doc@))),
                *state,
            ),
        decreases doc.len() - j,
    {
        let ghost gj = j as int;
        let ghost prev_state = *state;
        let ghost prev_count = execution_count as int;
        proof {
            crate::document::lemma_first_fm_bounds(doc@);
            assert(doc@.take(gj + 1).drop_last() =~= doc@.take(gj));
            assert(doc@.take(gj + 1).last() == doc@[gj]);
            lemma_num_unskipped_le(state.execution_configs@);
            assert(execution_count < i32::MAX);
        }
        match &doc[j] {
            MdNode::FrontMatter(bs) => {
                proof {
                    assert(crate::document::is_front_matter(doc@[gj]));
                    assert(first_fm(doc@) <= gj);
                    assert(doc@[gj]->FrontMatter_0 == *bs);
                }
                let new_bs = match parse_front_matter(state, bs) {
                    Err(e) => {
                        proof {
                            if crate::document::fm_free(doc@) {
                                assert(!crate::document::is_front_matter(doc@[gj]));
                            }
                            let f = first_fm(doc@);
                            if gj > f {
                                assert(fm_bytes_ok(doc@[f]->FrontMatter_0@));
                            }
                        }
                        return Err(e);
                    },
                    Ok(v) => v,
                };
                state.front_matter = Some(new_bs);
                proof {
                    assert(fm_env_step(
                        doc@[gj]->FrontMatter_0@,
                        prev_state.environment@,
                        state.environment@,
                    ));
                    assert(crate::document::is_front_matter(doc@[gj]));
                    assert(first_fm(doc@) <= gj);
                    if gj == first_fm(doc@) {
                        assert(fm_bytes_ok(doc@[first_fm(doc@)]->FrontMatter_0@));
                        lemma_plan_view_exact(
                            plan_spec(env0, doc@.take(gj)),
                            prev_state,
                            prev_count,
                        );
                        assert(plan_extends(plan_spec(env0, doc@.take(first_fm(doc@))), *state));
                    } else {
                        if single_fm(doc@) {
                            assert(gj == first_fm(doc@));
                        }
                    }
                }
            },
            MdNode::CodeBlock { info, literal } => {
                parse_code_block(state, code_block_index, info, literal, &mut execution_count);
                code_block_index += 1;
                proof {
                    let ghost node = doc@[gj];
                    assert(plan_step(prev_state.environment@, state_plan_view(prev_state, prev_count), node)
                        == plan_step_cb(
                        prev_state.environment@,
                        state_plan_view(prev_state, prev_count),
                        node->CodeBlock_info@,
                        node->CodeBlock_literal@,
                    ));
                    let gpv = state_plan_view(*state, execution_count as int);
                    let gov = state_plan_view(prev_state, prev_count);
                    let gsv = plan_step_cb(
                        prev_state.environment@,
                        gov,
                        node->CodeBlock_info@,
                        node->CodeBlock_literal@,
                    );
                    assert(gpv == gsv);
                    if crate::config::assoc_get(
                        prev_state.environment@.runners,
                        tag_of_info(node->CodeBlock_info@),
                    ) is None {
                        assert(gsv.mapping == gov.mapping.push(None));
                    } else {
                        assert(gsv.mapping == gov.mapping.push(
                            Some(gov.executions.len() as int),
                        ));
                    }
                    assert(state.code_block_to_execution@.len() == gpv.mapping.len());
                    assert(gov.mapping.len() == prev_state.code_block_to_execution@.len());
                    assert(state.code_block_to_execution@.len()
                        == prev_state.code_block_to_execution@.len() + 1);
                    let newmap = state.code_block_to_execution@;
                    let oldmap = prev_state.code_block_to_execution@;
                    let oldn = prev_state.executions@.len() as int;
                    assert(newmap.drop_last() =~= oldmap);
                    if crate::config::assoc_get(
                        prev_state.environment@.runners,
                        tag_of_info(node->CodeBlock_info@),
                    ) is Some {
                        assert(newmap.last() == Some(oldn as usize));
                        assert(mapped_indices(newmap) == mapped_indices(oldmap) + seq![oldn]);
                        assert(Seq::new((oldn + 1) as nat, |i: int| i) =~= Seq::new(
                            oldn as nat,
                            |i: int| i,
                        ) + seq![oldn]);
                        assert(mapped_indices(newmap) == Seq::new(
                            state.executions@.len() as nat,
                            |i: int| i,
                        ));
                    } else {
                        assert(newmap.last() == None::<usize>);
                        assert(mapped_indices(newmap) =~= mapped_indices(oldmap));
                        assert(state.executions@.len() == prev_state.executions@.len());
                    }
                    // numbering and freshness for the step
                    let oldcfgs = prev_state.execution_configs@;
                    let newcfgs = state.execution_configs@;
                    if newcfgs.len() > oldcfgs.len() {
                        assert(newcfgs.len() == oldcfgs.len() + 1);
                        assert(newcfgs.take(oldcfgs.len() as int) =~= oldcfgs);
                        assert(newcfgs.drop_last() =~= oldcfgs);
                        assert forall|i: int|
                            0 <= i < state.executions@.len() implies (
                        #[trigger] state.executions@[i]).execution_count as int == 1
                            + num_unskipped(newcfgs.take(i)) by {
                            if i < prev_state.executions@.len() {
                                assert(newcfgs.take(i) =~= oldcfgs.take(i));
                            } else {
                                assert(i == oldcfgs.len());
                                assert(newcfgs.take(i) =~= oldcfgs);
                            }
                        }
                        // the view equation pins the count update
                        let pv = state_plan_view(*state, execution_count as int);
                        let ov = state_plan_view(prev_state, prev_count);
                        let sv = plan_step_cb(
                            prev_state.environment@,
                            ov,
                            node->CodeBlock_info@,
                            node->CodeBlock_literal@,
                        );
                        assert(pv == sv);
                        assert(pv.exec_configs == sv.exec_configs);
                        assert(newcfgs.last() == sv.exec_configs.last());
                        assert(execution_count as int == 1 + num_unskipped(newcfgs));
                    } else {
                        assert(newcfgs =~= oldcfgs);
                        assert forall|i: int|
                            0 <= i < state.executions@.len() implies (
                        #[trigger] state.executions@[i]).execution_count as int == 1
                            + num_unskipped(newcfgs.take(i)) by {
                            assert(state.executions@[i] == prev_state.executions@[i]);
                            assert(newcfgs.take(i) =~= oldcfgs.take(i));
                        }
                    }
                    assert(fresh_marks(*state));
                    if gj < first_fm(doc@) {
                        assert(prev_state.environment@ == env0);
                        assert(state_plan_view(*state, execution_count as int) == plan_spec(
                            env0,
                            doc@.take(gj + 1),
                        ));
                    } else {
                        assert(gj > first_fm(doc@) || gj == first_fm(doc@));
                        assert(!crate::document::is_front_matter(doc@[gj]));
                        assert(gj != first_fm(doc@));
                        let frozen = plan_spec(env0, doc@.take(first_fm(doc@)));
                        assert(plan_extends(frozen, prev_state));
                        assert forall|i: int|
                            0 <= i < frozen.contents.len() implies (
                        #[trigger] state.contents@[i])@ == frozen.contents[i] by {
                            assert(state.contents@[i] == prev_state.contents@[i]);
                        }
                        assert forall|i: int|
                            0 <= i < frozen.executions.len() implies exec_view(
                            #[trigger] state.executions@[i],
                        ) == frozen.executions[i] by {
                            assert(state.executions@[i] == prev_state.executions@[i]);
                        }
                        assert forall|i: int|
                            0 <= i < frozen.mapping.len() implies (
                        match #[trigger] state.code_block_to_execution@[i] {
                            Some(x) => Some(x as int),
                            None => None::<int>,
                        }) == frozen.mapping[i] by {
                            assert(state.code_block_to_execution@[i]
                                == prev_state.code_block_to_execution@[i]);
                        }
                        assert forall|i: int|
                            0 <= i < frozen.exec_configs.len() implies (
                        #[trigger] state.execution_configs@[i]) == frozen.exec_configs[i] by {
                            assert(state.execution_configs@[i]
                                == prev_state.execution_configs@[i]);
                        }
                        assert forall|i: int|
                            0 <= i < frozen.format_configs.len() implies (
                        #[trigger] state.format_configs@[i])@ == frozen.format_configs[i] by {
                            assert(state.format_configs@[i] == prev_state.format_configs@[i]);
                        }
                        assert(plan_extends(frozen, *state));
                    }
                }
            },
            MdNode::Other => {
                proof {
                    if gj <= first_fm(doc@) {
                        assert(plan_spec(env0, doc@.take(gj + 1)) == plan_spec(
                            env0,
                            doc@.take(gj),
                        ));
                    }
                }
            },
        }
        proof {
            let prev_envs = envs;
            envs = envs.push(state.environment@);
            lemma_plan_spec_envs_push(prev_envs, state.environment@, doc@.take(gj));
            assert(envs[gj] == prev_envs[gj]);
            assert(envs[gj + 1] == state.environment@);
            assert(doc@.take(gj + 1).len() == gj + 1);
            if doc@[gj] is CodeBlock {
                assert(plan_spec_envs(envs, doc@.take(gj + 1)) == plan_step(
                    prev_envs[gj],
                    plan_spec_envs(prev_envs, doc@.take(gj)),
                    doc@[gj],
                ));
                assert(state_plan_view(*state, execution_count as int) == plan_spec_envs(
                    envs,
                    doc@.take(gj + 1),
                ));
            } else {
                assert(plan_spec_envs(envs, doc@.take(gj + 1)) == plan_spec_envs(
                    prev_envs,
                    doc@.take(gj),
                ));
                assert(state.contents == prev_state.contents);
                assert(state.executions == prev_state.executions);
                assert(state.code_block_to_execution == prev_state.code_block_to_execution);
                assert(state.execution_configs == prev_state.execution_configs);
                assert(state.format_configs == prev_state.format_configs);
                assert(execution_count as int == prev_count);
                assert(state_plan_view(*state, execution_count as int) =~= state_plan_view(
                    prev_state,
                    prev_count,
                ));
                assert(state_plan_view(*state, execution_count as int) == plan_spec_envs(
                    envs,
                    doc@.take(gj + 1),
                ));
            }
        }
        j += 1;
        proof {
            assert(doc@.take(gj + 1).len() == gj + 1);
            if crate::document::is_code_block(doc@[gj]) {
                assert(count_code_blocks(doc@.take(gj + 1)) == count_code_blocks(doc@.take(gj))
                    + 1);
            } else {
                assert(count_code_blocks(doc@.take(gj + 1)) == count_code_blocks(doc@.take(gj)));
            }
        }
    }
    proof {
        assert(doc@.take(doc@.len() as int) =~= doc@);
        crate::document::lemma_first_fm_bounds(doc@);
        assert(state_plan_view(*state, execution_count as int) == plan_spec_envs(envs, doc@));
        lemma_plan_view_exact(plan_spec_envs(envs, doc@), *state, execution_count as int);
        assert(envs.len() == doc@.len() + 1 && envs[0] == old(state).environment@
            && envs[doc@.len() as int] == state.environment@);
        if (doc.len() as int) <= first_fm(doc@) {
            lemma_plan_view_exact(
                plan_spec(env0, doc@.take(doc@.len() as int)),
                *state,
                execution_count as int,
            );
            assert(doc@.take(first_fm(doc@)) =~= doc@);
        }
        if crate::document::fm_free(doc@) {
            assert(first_fm(doc@) == doc@.len()) by {
                if first_fm(doc@) < doc@.len() {
                    assert(crate::document::is_front_matter(doc@[first_fm(doc@)]));
                }
            }
        } else {
            assert(first_fm(doc@) < doc@.len() || doc@.len() == first_fm(doc@));
        }
    }
    Ok(())
}

} // verus!
