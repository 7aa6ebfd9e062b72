//! The result re-injection step: computes, for every code block of the
//! document, how the rewritten document differs from the original —
//! replaced literals, inserted captions and output blocks, detached input
//! blocks — and the replacement front-matter bytes. Applying the patch to
//! the tree and serializing it is the Markdown library's job.

use vstd::prelude::*;

use vstd::utf8::encode_utf8;

use crate::config::{Config, ExecutionConfig, FormatConfigV};
use crate::document::{count_code_blocks, MdNode};
use crate::executor::{Execution, MdduxError};
use crate::runner::MdduxState;
use crate::text::{dec_i32_spec, i32_to_string};

verus! {

/// A node to splice into the document next to a code block.
#[derive(Debug)]
pub enum InsertNode {
    /// A caption: plain text bytes.
    Text(Vec<u8>),
    /// A new code block carrying captured output.
    CodeBlock { info: Vec<u8>, literal: Vec<u8> },
}

/// The ghost image of an inserted node.
pub enum InsertNodeV {
    Text(Seq<u8>),
    CodeBlock { info: Seq<u8>, literal: Seq<u8> },
}

impl View for InsertNode {
    type V = InsertNodeV;

    open spec fn view(&self) -> InsertNodeV {
        match self {
            InsertNode::Text(bs) => InsertNodeV::Text(bs@),
            InsertNode::CodeBlock { info, literal } => InsertNodeV::CodeBlock {
                info: info@,
                literal: literal@,
            },
        }
    }
}

/// Everything the formatter does to one code block of the document.
#[derive(Debug)]
pub struct BlockPatch {
    /// The block's new literal bytes, if they are replaced.
    pub replace_literal: Option<Vec<u8>>,
    /// Whether the block is removed from the document.
    pub detach: bool,
    /// Nodes inserted before the block, in document order.
    pub before: Vec<InsertNode>,
    /// Nodes inserted after the block, in document order.
    pub after: Vec<InsertNode>,
}

/// The ghost image of a block patch.
#[verifier::ext_equal]
pub struct BlockPatchV {
    pub replace_literal: Option<Seq<u8>>,
    pub detach: bool,
    pub before: Seq<InsertNodeV>,
    pub after: Seq<InsertNodeV>,
}

impl View for BlockPatch {
    type V = BlockPatchV;

    open spec fn view(&self) -> BlockPatchV {
        BlockPatchV {
            replace_literal: match &self.replace_literal {
                Some(b) => Some(b@),
                None => None,
            },
            detach: self.detach,
            before: self.before@.map_values(|n: InsertNode| n@),
            after: self.after@.map_values(|n: InsertNode| n@),
        }
    }
}

/// The whole document's rewrite: the replacement front-matter bytes, and
/// one patch per code block, in document order.
#[derive(Debug)]
pub struct DocPatch {
    pub front_matter: Option<Vec<u8>>,
    pub blocks: Vec<BlockPatch>,
}

/// A patch that leaves its block untouched.
pub open spec fn identity_patch() -> BlockPatchV {
    BlockPatchV { replace_literal: None, detach: false, before: Seq::empty(), after: Seq::empty() }
}

/// What `strfmt::strfmt` substitutes into a caption template for given
/// variables. A function of the template and the variables alone.
pub uninterp spec fn strfmt_of(template: Seq<char>, vars: Map<Seq<char>, Seq<char>>) -> Seq<char>;

/// Whether `strfmt::strfmt` accepts a caption template for given
/// variables; a rejected template is fatal, as templates are the caller's
/// to get right.
pub uninterp spec fn strfmt_ok(template: Seq<char>, vars: Map<Seq<char>, Seq<char>>) -> bool;

/// The variable pairs as the map that `strfmt` sees: later pairs shadow
/// earlier ones of the same name.
pub open spec fn pairs_to_map(pairs: Seq<(Seq<char>, Seq<char>)>) -> Map<Seq<char>, Seq<char>>
    decreases pairs.len(),
{
    if pairs.len() == 0 {
        Map::empty()
    } else {
        pairs_to_map(pairs.drop_last()).insert(pairs.last().0, pairs.last().1)
    }
}

/// Relies on `strfmt::strfmt` with a `HashMap<String, String>`: replaces
/// each `{name}` in the template by the named variable, or fails on a
/// malformed template or an unknown name; the result depends only on the
/// template and the variables.
#[verifier::external_body]
fn strfmt_pairs(template: &str, vars: &Vec<(String, String)>) -> (r: Option<String>)
    ensures
        r is Some <==> strfmt_ok(
            template@,
            pairs_to_map(vars@.map_values(|p: (String, String)| (p.0@, p.1@))),
        ),
        r matches Some(s) ==> s@ == strfmt_of(
            template@,
            pairs_to_map(vars@.map_values(|p: (String, String)| (p.0@, p.1@))),
        ),
{
    let map: std::collections::HashMap<String, String> = vars.iter().map(
        |p| (p.0.clone(), p.1.clone()),
    ).collect();
    strfmt::strfmt(template, &map).ok()
}

/// The three caption variables: the execution's visible number, its
/// language tag, and the kind of block being captioned.
pub open spec fn caption_vars(count: Seq<char>, tag: Seq<char>, cbt: Seq<char>) -> Map<
    Seq<char>,
    Seq<char>,
> {
    Map::empty().insert("execution_count"@, count).insert("type"@, tag).insert(
        "code_block_type"@,
        cbt,
    )
}

/// The caption used when no template is configured:
/// `"<kind> [<number>]:"`.
pub open spec fn default_caption_spec(cbt: Seq<char>, count: int) -> Seq<char> {
    cbt + " ["@ + dec_i32_spec(count) + "]:"@
}

/// Whether the caption of one block kind can be produced.
pub open spec fn caption_ok(fmt: Option<Seq<char>>, e: Execution, cbt: Seq<char>) -> bool {
    match fmt {
        None => true,
        Some(f) => strfmt_ok(
            f,
            caption_vars(dec_i32_spec(e.execution_count as int), e.type_@, cbt),
        ),
    }
}

/// The caption of one block kind: the configured template with the
/// execution's variables substituted, or the default caption.
pub open spec fn caption_spec(fmt: Option<Seq<char>>, e: Execution, cbt: Seq<char>) -> Seq<char> {
    match fmt {
        None => default_caption_spec(cbt, e.execution_count as int),
        Some(f) => strfmt_of(
            f,
            caption_vars(dec_i32_spec(e.execution_count as int), e.type_@, cbt),
        ),
    }
}

/// Produces one caption: the template with `execution_count`, `type` and
/// `code_block_type` substituted, or the default caption when no template
/// is configured. `None` when the template is rejected.
pub fn make_caption(caption_format: &Option<String>, execution: &Execution, code_block_type: &str) -> (r:
    Option<String>)
    ensures
        r is Some <==> caption_ok(
            crate::config::view_opt_str(*caption_format),
            *execution,
            code_block_type@,
        ),
        r matches Some(s) ==> s@ == caption_spec(
            crate::config::view_opt_str(*caption_format),
            *execution,
            code_block_type@,
        ),
{
    let count_str = i32_to_string(execution.execution_count);
    match caption_format {
        Some(f) => {
            let mut vars: Vec<(String, String)> = Vec::new();
            vars.push(("execution_count".to_owned(), count_str));
            vars.push(("type".to_owned(), execution.type_.clone()));
            vars.push(("code_block_type".to_owned(), code_block_type.to_owned()));
            proof {
                let gv = vars@.map_values(|p: (String, String)| (p.0@, p.1@));
                assert(gv.len() == 3);
                assert(gv[0] == ("execution_count"@, dec_i32_spec(
                    execution.execution_count as int,
                )));
                assert(gv[1] == ("type"@, execution.type_@));
                assert(gv[2] == ("code_block_type"@, code_block_type@));
                let g2 = gv.drop_last();
                let g1 = g2.drop_last();
                let g0 = g1.drop_last();
                assert(g0 =~= Seq::<(Seq<char>, Seq<char>)>::empty());
                assert(pairs_to_map(g0) =~= Map::<Seq<char>, Seq<char>>::empty());
                assert(g1.len() == 1 && g1.last() == gv[0]);
                assert(pairs_to_map(g1) == pairs_to_map(g0).insert(gv[0].0, gv[0].1));
                assert(g2.len() == 2 && g2.last() == gv[1]);
                assert(pairs_to_map(g2) == pairs_to_map(g1).insert(gv[1].0, gv[1].1));
                assert(gv.last() == gv[2]);
                assert(pairs_to_map(gv) == pairs_to_map(g2).insert(gv[2].0, gv[2].1));
                assert(pairs_to_map(gv) == caption_vars(
                    dec_i32_spec(execution.execution_count as int),
                    execution.type_@,
                    code_block_type@,
                ));
            }
            strfmt_pairs(f.as_str(), &vars)
        },
        None => {
            let mut s = code_block_type.to_owned();
            s.append(" [");
            s.append(count_str.as_str());
            s.append("]:");
            proof {
                assert(s@ =~= default_caption_spec(
                    code_block_type@,
                    execution.execution_count as int,
                ));
            }
            Some(s)
        },
    }
}

/// The output stream's info string: the configured one, or `text`.
pub open spec fn info_or_text(fmt: Option<Seq<char>>) -> Seq<char> {
    match fmt {
        Some(s) => s,
        None => "text"@,
    }
}

/// Whether every caption this block's patch needs can be produced.
pub open spec fn block_patch_ok(
    e: Execution,
    caption_on: bool,
    ec: ExecutionConfig,
    fc: FormatConfigV,
) -> bool {
    if ec.skipped == Some(true) {
        true
    } else {
        let in_needed = fc.stdin_hidden != Some(true) && caption_on && fc.stdin_caption_hidden
            != Some(true);
        let err_needed = e.output matches Some(out) && fc.stderr_hidden != Some(true)
            && out.stderr@.len() > 0 && caption_on && fc.stderr_caption_hidden != Some(true);
        let out_needed = e.output matches Some(out) && fc.stdout_hidden != Some(true)
            && out.stdout@.len() > 0 && caption_on && fc.stdout_caption_hidden != Some(true);
        &&& (in_needed ==> caption_ok(fc.stdin_caption_format, e, "In"@))
        &&& (err_needed ==> caption_ok(fc.stderr_caption_format, e, "Err"@))
        &&& (out_needed ==> caption_ok(fc.stdout_caption_format, e, "Out"@))
    }
}

/// The patch of one mapped block: the literal replaced by the cleaned
/// content (unless the input is hidden, which detaches the block), an
/// `In` caption before it, and after it — in document order — the
/// captured stdout and stderr, each as a captioned code block, inserted
/// only when present and not hidden.
pub open spec fn block_patch_spec(
    content: Seq<char>,
    e: Execution,
    caption_on: bool,
    ec: ExecutionConfig,
    fc: FormatConfigV,
) -> BlockPatchV {
    if ec.skipped == Some(true) {
        BlockPatchV {
            replace_literal: Some(encode_utf8(content)),
            detach: false,
            before: Seq::empty(),
            after: Seq::empty(),
        }
    } else {
        let stdin_hidden = fc.stdin_hidden == Some(true);
        let before: Seq<InsertNodeV> = if !stdin_hidden && caption_on && fc.stdin_caption_hidden
            != Some(true) {
            seq![InsertNodeV::Text(encode_utf8(caption_spec(fc.stdin_caption_format, e, "In"@)))]
        } else {
            Seq::empty()
        };
        let err_items: Seq<InsertNodeV> = match e.output {
            Some(out) => {
                if fc.stderr_hidden != Some(true) && out.stderr@.len() > 0 {
                    let blk = seq![
                        InsertNodeV::CodeBlock {
                            info: encode_utf8(info_or_text(fc.stderr_info)),
                            literal: out.stderr@,
                        },
                    ];
                    if caption_on && fc.stderr_caption_hidden != Some(true) {
                        seq![
                            InsertNodeV::Text(
                                encode_utf8(caption_spec(fc.stderr_caption_format, e, "Err"@)),
                            ),
                        ] + blk
                    } else {
                        blk
                    }
                } else {
                    Seq::empty()
                }
            },
            None => Seq::empty(),
        };
        let out_items: Seq<InsertNodeV> = match e.output {
            Some(out) => {
                if fc.stdout_hidden != Some(true) && out.stdout@.len() > 0 {
                    let blk = seq![
                        InsertNodeV::CodeBlock {
                            info: encode_utf8(info_or_text(fc.stdout_info)),
                            literal: out.stdout@,
                        },
                    ];
                    if caption_on && fc.stdout_caption_hidden != Some(true) {
                        seq![
                            InsertNodeV::Text(
                                encode_utf8(caption_spec(fc.stdout_caption_format, e, "Out"@)),
                            ),
                        ] + blk
                    } else {
                        blk
                    }
                } else {
                    Seq::empty()
                }
            },
            None => Seq::empty(),
        };
        BlockPatchV {
            replace_literal: if stdin_hidden {
                None
            } else {
                Some(encode_utf8(content))
            },
            detach: stdin_hidden,
            before: if stdin_hidden {
                Seq::empty()
            } else {
                before
            },
            after: out_items + err_items,
        }
    }
}

/// Builds the patch of one mapped block, as `block_patch_spec` lays it
/// out; fails exactly when a needed caption template is rejected.
pub fn format_cmark(
    content: &String,
    execution: &Execution,
    caption_on: bool,
    execution_config: &ExecutionConfig,
    format_config: &crate::config::FormatConfig,
) -> (r: Result<BlockPatch, MdduxError>)
    ensures
        r is Ok <==> block_patch_ok(*execution, caption_on, *execution_config, format_config@),
        r matches Ok(p) ==> p@ == block_patch_spec(
            content@,
            *execution,
            caption_on,
            *execution_config,
            format_config@,
        ),
        r is Err ==> (r matches Err(e) && e is CaptionFormat),
{
    let skipped = match execution_config.skipped {
        Some(b) => b,
        None => false,
    };
    if skipped {
        let p = BlockPatch {
            replace_literal: Some(content.as_str().as_bytes_vec()),
            detach: false,
            before: Vec::new(),
            after: Vec::new(),
        };
        proof {
            assert(p@ =~= block_patch_spec(
                content@,
                *execution,
                caption_on,
                *execution_config,
                format_config@,
            ));
        }
        return Ok(p);
    }
    let stdin_hidden = match format_config.stdin_hidden {
        Some(b) => b,
        None => false,
    };
    let mut before: Vec<InsertNode> = Vec::new();
    if !stdin_hidden && caption_on && !matches!(format_config.stdin_caption_hidden, Some(true)) {
        match make_caption(&format_config.stdin_caption_format, execution, "In") {
            None => {
                return Err(MdduxError::CaptionFormat);
            },
            Some(c) => {
                before.push(InsertNode::Text(c.as_str().as_bytes_vec()));
            },
        }
    }
    let mut after: Vec<InsertNode> = Vec::new();
    match &execution.output {
        None => {},
        Some(out) => {
            let stdout_bytes = out.stdout.as_ref();
            if !matches!(format_config.stdout_hidden, Some(true)) && stdout_bytes.len() > 0 {
                if caption_on && !matches!(format_config.stdout_caption_hidden, Some(true)) {
                    match make_caption(&format_config.stdout_caption_format, execution, "Out") {
                        None => {
                            return Err(MdduxError::CaptionFormat);
                        },
                        Some(c) => {
                            after.push(InsertNode::Text(c.as_str().as_bytes_vec()));
                        },
                    }
                }
                let info = match &format_config.stdout_info {
                    Some(s) => s.as_str().as_bytes_vec(),
                    None => "text".as_bytes_vec(),
                };
                after.push(InsertNode::CodeBlock { info, literal: out.stdout.to_bytes() });
            }
            let stderr_bytes = out.stderr.as_ref();
            if !matches!(format_config.stderr_hidden, Some(true)) && stderr_bytes.len() > 0 {
                if caption_on && !matches!(format_config.stderr_caption_hidden, Some(true)) {
                    match make_caption(&format_config.stderr_caption_format, execution, "Err") {
                        None => {
                            return Err(MdduxError::CaptionFormat);
                        },
                        Some(c) => {
                            after.push(InsertNode::Text(c.as_str().as_bytes_vec()));
                        },
                    }
                }
                let info = match &format_config.stderr_info {
                    Some(s) => s.as_str().as_bytes_vec(),
                    None => "text".as_bytes_vec(),
                };
                after.push(InsertNode::CodeBlock { info, literal: out.stderr.to_bytes() });
            }
        },
    }
    let p = BlockPatch {
        replace_literal: if stdin_hidden {
            None
        } else {
            Some(content.as_str().as_bytes_vec())
        },
        detach: stdin_hidden,
        before,
        after,
    };
    proof {
        assert(p@.after =~= block_patch_spec(
            content@,
            *execution,
            caption_on,
            *execution_config,
            format_config@,
        ).after);
        assert(p@.before =~= block_patch_spec(
            content@,
            *execution,
            caption_on,
            *execution_config,
            format_config@,
        ).before);
        assert(p@ =~= block_patch_spec(
            content@,
            *execution,
            caption_on,
            *execution_config,
            format_config@,
        ));
    }
    Ok(p)
}

/// A block's patch is a function of what the formatter reads of an
/// execution: its visible number, its tag, and its output's status and
/// stream contents. Two executions equal in those produce the same patch,
/// and need the same captions.
pub proof fn lemma_block_patch_congruence(
    content: Seq<char>,
    e1: Execution,
    e2: Execution,
    caption_on: bool,
    ec: ExecutionConfig,
    fc: FormatConfigV,
)
    requires
        e1.execution_count == e2.execution_count,
        e1.type_@ == e2.type_@,
        crate::executor::opt_output_eq_spec(&e1.output, &e2.output),
    ensures
        block_patch_spec(content, e1, caption_on, ec, fc) == block_patch_spec(
            content,
            e2,
            caption_on,
            ec,
            fc,
        ),
        block_patch_ok(e1, caption_on, ec, fc) == block_patch_ok(e2, caption_on, ec, fc),
{
    assert(caption_spec(fc.stdin_caption_format, e1, "In"@) == caption_spec(
        fc.stdin_caption_format,
        e2,
        "In"@,
    ));
    assert(caption_spec(fc.stdout_caption_format, e1, "Out"@) == caption_spec(
        fc.stdout_caption_format,
        e2,
        "Out"@,
    ));
    assert(caption_spec(fc.stderr_caption_format, e1, "Err"@) == caption_spec(
        fc.stderr_caption_format,
        e2,
        "Err"@,
    ));
    match (e1.output, e2.output) {
        (Some(o1), Some(o2)) => {
            crate::content::lemma_content_eq_view(&o1.stdout, &o2.stdout);
            crate::content::lemma_content_eq_view(&o1.stderr, &o2.stderr);
            assert(block_patch_spec(content, e1, caption_on, ec, fc) =~= block_patch_spec(
                content,
                e2,
                caption_on,
                ec,
                fc,
            ));
        },
        (None, None) => {
            assert(block_patch_spec(content, e1, caption_on, ec, fc) =~= block_patch_spec(
                content,
                e2,
                caption_on,
                ec,
                fc,
            ));
        },
        _ => {},
    }
}

/// Whether every caption the whole document's patch needs can be
/// produced.
pub open spec fn doc_patch_ok(st: MdduxState, caption_on: bool, n_blocks: int) -> bool {
    forall|k: int|
        0 <= k < n_blocks && k < st.code_block_to_execution@.len() ==> match #[trigger] st.code_block_to_execution@[k] {
            Some(e) => block_patch_ok(
                st.executions@[e as int],
                caption_on,
                crate::runner::compose_execution_config_spec(
                    st.environment@,
                    st.execution_configs@[e as int],
                    st.executions@[e as int].type_@,
                ),
                crate::runner::compose_format_config_spec(
                    st.environment@,
                    st.format_configs@[e as int]@,
                    st.executions@[e as int].type_@,
                ),
            ),
            None => true,
        }
}

/// The patch of the document's `k`-th code block: what its mapped
/// execution prescribes, or nothing for an unmapped block.
pub open spec fn code_block_patch_spec(st: MdduxState, caption_on: bool, k: int) -> BlockPatchV {
    if 0 <= k < st.code_block_to_execution@.len() {
        match st.code_block_to_execution@[k] {
            Some(e) => block_patch_spec(
                st.contents@[e as int]@,
                st.executions@[e as int],
                caption_on,
                crate::runner::compose_execution_config_spec(
                    st.environment@,
                    st.execution_configs@[e as int],
                    st.executions@[e as int].type_@,
                ),
                crate::runner::compose_format_config_spec(
                    st.environment@,
                    st.format_configs@[e as int]@,
                    st.executions@[e as int].type_@,
                ),
            ),
            None => identity_patch(),
        }
    } else {
        identity_patch()
    }
}

/// Whether captions are enabled at all.
pub open spec fn caption_enabled(conf: &Config) -> bool {
    conf.caption == Some(true)
}

/// Walks the document a second time, in the planner's order, and builds
/// the whole rewrite: the retained front-matter bytes replace the
/// front-matter node, and every code block receives the patch its mapped
/// execution prescribes.
pub fn format(state: &MdduxState, conf: &Config, doc: &Vec<MdNode>) -> (r: Result<
    DocPatch,
    MdduxError,
>)
    requires
        state.wf(),
    ensures
        r is Ok <==> doc_patch_ok(*state, caption_enabled(conf), count_code_blocks(doc@)),
        r matches Ok(p) ==> {
            &&& (match (&p.front_matter, &state.front_matter) {
                (Some(a), Some(b)) => a@ == b@,
                (None, None) => true,
                _ => false,
            })
            &&& p.blocks@.len() == count_code_blocks(doc@)
            &&& forall|k: int|
                0 <= k < p.blocks@.len() ==> (#[trigger] p.blocks@[k])@ == code_block_patch_spec(
                    *state,
                    caption_enabled(conf),
                    k,
                )
        },
        r is Err ==> (r matches Err(e) && e is CaptionFormat),
{
    let caption_on = match conf.caption {
        Some(b) => b,
        None => false,
    };
    proof {
        assert(caption_on == caption_enabled(conf));
    }
    let front_matter = match &state.front_matter {
        Some(b) => Some(crate::content::clone_bytes(b)),
        None => None,
    };
    let mut blocks: Vec<BlockPatch> = Vec::new();
    let mut k: usize = 0;
    let mut j: usize = 0;
    proof {
        assert(doc@.take(0) =~= Seq::<MdNode>::empty());
    }
    while j < doc.len()
        invariant
            state.wf(),
            j <= doc.len(),
            caption_on == caption_enabled(conf),
            k == blocks@.len(),
            k <= j,
            blocks@.len() == count_code_blocks(doc@.take(j as int)),
            forall|i: int|
                0 <= i < blocks@.len() ==> (#[trigger] blocks@[i])@ == code_block_patch_spec(
                    *state,
                    caption_enabled(conf),
                    i,
                ),
            forall|i: int|
                0 <= i < blocks@.len() && i < state.code_block_to_execution@.len()
                    ==> match #[trigger] state.code_block_to_execution@[i] {
                    Some(e) => block_patch_ok(
                        state.executions@[e as int],
                        caption_enabled(conf),
                        crate::runner::compose_execution_config_spec(
                            state.environment@,
                            state.execution_configs@[e as int],
                            state.executions@[e as int].type_@,
                        ),
                        crate::runner::compose_format_config_spec(
                            state.environment@,
                            state.format_configs@[e as int]@,
                            state.executions@[e as int].type_@,
                        ),
                    ),
                    None => true,
                },
        decreases doc.len() - j,
    {
        let ghost gj = j as int;
        proof {
            assert(doc@.take(gj + 1).drop_last() =~= doc@.take(gj));
            assert(doc@.take(gj + 1).last() == doc@[gj]);
        }
        match &doc[j] {
            MdNode::CodeBlock { .. } => {
                let patch: BlockPatch;
                if k < state.code_block_to_execution.len() {
                    match state.code_block_to_execution[k] {
                        Some(e) => {
                            let execution = &state.executions[e];
                            let content = &state.contents[e];
                            let execution_config = state.compose_execution_config(e, execution);
                            let format_config = state.compose_format_config(e, execution);
                            match format_cmark(
                                content,
                                execution,
                                caption_on,
                                &execution_config,
                                &format_config,
                            ) {
                                Ok(p) => {
                                    patch = p;
                                },
                                Err(err) => {
                                    proof {
                                        crate::document::lemma_count_code_blocks_mono(
                                            doc@,
                                            gj + 1,
                                            doc@.len() as int,
                                        );
                                        assert(count_code_blocks(doc@.take(gj + 1)) == k + 1);
                                        assert(doc@.take(doc@.len() as int) =~= doc@);
                                        assert(k < count_code_blocks(doc@));
                                        if doc_patch_ok(
                                            *state,
                                            caption_enabled(conf),
                                            count_code_blocks(doc@),
                                        ) {
                                            assert(match state.code_block_to_execution@[k as int] {
                                                Some(e2) => block_patch_ok(
                                                    state.executions@[e2 as int],
                                                    caption_enabled(conf),
                                                    crate::runner::compose_execution_config_spec(
                                                        state.environment@,
                                                        state.execution_configs@[e2 as int],
                                                        state.executions@[e2 as int].type_@,
                                                    ),
                                                    crate::runner::compose_format_config_spec(
                                                        state.environment@,
                                                        state.format_configs@[e2 as int]@,
                                                        state.executions@[e2 as int].type_@,
                                                    ),
                                                ),
                                                None => true,
                                            });
                                            assert(false);
                                        }
                                    }
                                    return Err(err);
                                },
                            }
                        },
                        None => {
                            patch = BlockPatch {
                                replace_literal: None,
                                detach: false,
                                before: Vec::new(),
                                after: Vec::new(),
                            };
                            proof {
                                assert(patch@ =~= identity_patch());
                            }
                        },
                    }
                } else {
                    patch = BlockPatch {
                        replace_literal: None,
                        detach: false,
                        before: Vec::new(),
                        after: Vec::new(),
                    };
                    proof {
                        assert(patch@ =~= identity_patch());
                    }
                }
                blocks.push(patch);
                k += 1;
            },
            _ => {},
        }
        j += 1;
    }
    proof {
        assert(doc@.take(doc@.len() as int) =~= doc@);
    }
    Ok(DocPatch { front_matter, blocks })
}

} // verus!
