//! The document-scoped pipeline state and the incremental executor: what
//! one run plans, what it reuses from the previous run's persisted state,
//! and what it actually executes.

use vstd::prelude::*;

use crate::config::{
    format_config_none, Config, ExecutionConfig, FormatConfig, RunnerConfigV,
};
use crate::executor::{
    Execution, ExecutionEnvironment, ExecutionInput, ExecutionOutput, MdduxError,
};

verus! {

/// All runners of an environment name a program: their command lists are
/// non-empty, as the planner requires when it splits them.
pub open spec fn runners_wf(rs: Seq<(Seq<char>, RunnerConfigV)>) -> bool {
    crate::config::runners_wf(rs)
}

pub proof fn lemma_assoc_get_wf(rs: Seq<(Seq<char>, RunnerConfigV)>, k: Seq<char>)
    requires
        runners_wf(rs),
        crate::config::assoc_get(rs, k) is Some,
    ensures
        crate::config::assoc_get(rs, k).unwrap().command.len() > 0,
{
    crate::config::lemma_assoc_get_wf(rs, k);
}

/// Everything one run knows: the evolving environment, and for each
/// executable block its cleaned content, execution record and merged
/// per-block overrides, keyed back to the document's code blocks.
#[derive(Debug)]
pub struct MdduxState {
    pub environment: ExecutionEnvironment,
    pub contents: Vec<String>,
    pub executions: Vec<Execution>,
    pub code_block_to_execution: Vec<Option<usize>>,
    pub front_matter: Option<Vec<u8>>,
    pub execution_configs: Vec<ExecutionConfig>,
    pub format_configs: Vec<FormatConfig>,
}

impl MdduxState {
    /// The per-block tables are aligned, and the block mapping points
    /// into them.
    pub open spec fn wf(self) -> bool {
        &&& self.contents@.len() == self.executions@.len()
        &&& self.execution_configs@.len() == self.executions@.len()
        &&& self.format_configs@.len() == self.executions@.len()
        &&& forall|i: int|
            0 <= i < self.code_block_to_execution@.len()
                ==> match #[trigger] self.code_block_to_execution@[i] {
                Some(e) => e < self.executions@.len(),
                None => true,
            }
    }

    /// A fresh state: the configuration's defaults and runners, and no
    /// planned executions yet.
    pub fn from_config(config: &Config) -> (r: MdduxState)
        ensures
            r.wf(),
            r.environment.execution == (match config.execution {
                Some(e) => e,
                None => ExecutionConfig { skipped: None },
            }),
            r.environment.format@ == (match config.format {
                Some(f) => f@,
                None => format_config_none(),
            }),
            r.environment.runners@ == (match config.runners {
                Some(rs) => rs@,
                None => Seq::<(Seq<char>, RunnerConfigV)>::empty(),
            }),
            r.contents@.len() == 0,
            r.executions@.len() == 0,
            r.code_block_to_execution@.len() == 0,
            r.execution_configs@.len() == 0,
            r.format_configs@.len() == 0,
            r.front_matter is None,
    {
        MdduxState {
            environment: ExecutionEnvironment {
                execution: match &config.execution {
                    Some(e) => e.clone(),
                    None => ExecutionConfig::new(),
                },
                format: match &config.format {
                    Some(f) => f.clone(),
                    None => FormatConfig::new(),
                },
                runners: match &config.runners {
                    Some(rs) => rs.clone(),
                    None => crate::config::Runners::new(),
                },
            },
            contents: Vec::new(),
            executions: Vec::new(),
            code_block_to_execution: Vec::new(),
            front_matter: None,
            execution_configs: Vec::new(),
            format_configs: Vec::new(),
        }
    }
}

/// The merged execution settings of one block: environment default, then
/// the runner-level override, then the block's own directive.
pub open spec fn compose_execution_config_spec(
    env: crate::executor::ExecutionEnvironmentV,
    block: ExecutionConfig,
    tag: Seq<char>,
) -> ExecutionConfig {
    let base = env.execution;
    let mid = match crate::config::assoc_get(env.runners, tag) {
        Some(rc) => match rc.exection {
            Some(e) => ExecutionConfig { skipped: crate::config::overlay(base.skipped, e.skipped) },
            None => base,
        },
        None => base,
    };
    ExecutionConfig { skipped: crate::config::overlay(mid.skipped, block.skipped) }
}

/// The merged format settings of one block, same precedence order.
pub open spec fn compose_format_config_spec(
    env: crate::executor::ExecutionEnvironmentV,
    block: crate::config::FormatConfigV,
    tag: Seq<char>,
) -> crate::config::FormatConfigV {
    let base = env.format;
    let mid = match crate::config::assoc_get(env.runners, tag) {
        Some(rc) => match rc.format {
            Some(f) => crate::config::format_apply_spec(base, f),
            None => base,
        },
        None => base,
    };
    crate::config::format_apply_spec(mid, block)
}

/// Whether the block behind execution `i` is skipped once all three
/// layers are merged.
pub open spec fn is_skipped(st: MdduxState, i: int) -> bool {
    compose_execution_config_spec(
        st.environment@,
        st.execution_configs@[i],
        st.executions@[i].type_@,
    ).skipped == Some(true)
}

/// A subprocess capability that cannot fail: every outcome it admits is
/// `Ok`.
pub open spec fn run_total<F: Fn(&ExecutionInput) -> Result<ExecutionOutput, MdduxError>>(
    run: F,
) -> bool {
    forall|x: &ExecutionInput, y: Result<ExecutionOutput, MdduxError>|
        #[trigger] call_ensures(run, (x,), y) ==> y is Ok
}

/// What full mode leaves at position `i`: a skipped execution untouched,
/// every other position freshly run through the capability.
pub open spec fn all_mode_post<F: Fn(&ExecutionInput) -> Result<ExecutionOutput, MdduxError>>(
    pre: MdduxState,
    post: MdduxState,
    run: F,
    i: int,
) -> bool {
    if is_skipped(pre, i) {
        crate::executor::opt_output_eq_spec(
            &post.executions@[i].output,
            &pre.executions@[i].output,
        )
    } else {
        post.executions@[i].output matches Some(out) && call_ensures(
            run,
            (&post.executions@[i].input,),
            Ok(out),
        )
    }
}

/// What the fast path leaves at position `i`: positions that already
/// have output, and skipped ones, untouched; the rest freshly run.
pub open spec fn fast_mode_post<F: Fn(&ExecutionInput) -> Result<ExecutionOutput, MdduxError>>(
    pre: MdduxState,
    post: MdduxState,
    run: F,
    i: int,
) -> bool {
    if pre.executions@[i].output is Some || is_skipped(pre, i) {
        crate::executor::opt_output_eq_spec(
            &post.executions@[i].output,
            &pre.executions@[i].output,
        )
    } else {
        post.executions@[i].output matches Some(out) && call_ensures(
            run,
            (&post.executions@[i].input,),
            Ok(out),
        )
    }
}

/// What the position-aligned diff leaves at position `i`: within the
/// usable prefix the previous run's output, copied; past it a skipped
/// position untouched, every other freshly run.
pub open spec fn diff_mode_post<F: Fn(&ExecutionInput) -> Result<ExecutionOutput, MdduxError>>(
    pre: MdduxState,
    prev_state: MdduxState,
    post: MdduxState,
    run: F,
    i: int,
) -> bool {
    if usable_prefix(pre.executions@, prev_state.executions@, i) {
        crate::executor::opt_output_eq_spec(
            &post.executions@[i].output,
            &prev_state.executions@[i].output,
        )
    } else if is_skipped(pre, i) {
        crate::executor::opt_output_eq_spec(
            &post.executions@[i].output,
            &pre.executions@[i].output,
        )
    } else {
        post.executions@[i].output matches Some(out) && call_ensures(
            run,
            (&post.executions@[i].input,),
            Ok(out),
        )
    }
}

/// When a previous run's record can stand in for a fresh one: the inputs
/// are the same execution and the previous record has output.
pub open spec fn cache_hit(cur: Execution, prev: Execution) -> bool {
    crate::executor::input_eq_spec(&cur.input, &prev.input) && prev.output is Some
}

/// The cache is aligned and intact through position `i`: every position
/// up to and including `i` is a hit. The first miss permanently clears
/// this for every later position.
pub open spec fn usable_prefix(cur: Seq<Execution>, prev: Seq<Execution>, i: int) -> bool
    decreases i + 1,
{
    if i < 0 {
        true
    } else {
        usable_prefix(cur, prev, i - 1) && i < prev.len() && cache_hit(cur[i], prev[i])
    }
}

proof fn lemma_divergence_aux(cur: Seq<Execution>, prev: Seq<Execution>, d: int, i: int)
    requires
        0 <= d <= i,
        !(d < prev.len() && cache_hit(cur[d], prev[d])),
    ensures
        !usable_prefix(cur, prev, i),
    decreases i - d,
{
    if i > d {
        lemma_divergence_aux(cur, prev, d, i - 1);
    }
}

/// Divergence invalidates the tail: once position `d` misses, no later
/// position can be served from the cache, whatever its own input.
pub proof fn lemma_divergence_invalidates_tail(
    cur: Seq<Execution>,
    prev: Seq<Execution>,
    d: int,
)
    requires
        0 <= d,
        !(d < prev.len() && cache_hit(cur[d], prev[d])),
    ensures
        forall|i: int| d <= i ==> !usable_prefix(cur, prev, i),
{
    assert forall|i: int| d <= i implies !usable_prefix(cur, prev, i) by {
        lemma_divergence_aux(cur, prev, d, i);
    }
}

proof fn lemma_reuse_aux(cur: Seq<Execution>, prev: Seq<Execution>, i: int)
    requires
        i < cur.len() <= prev.len(),
        forall|j: int|
            0 <= j < cur.len() ==> crate::executor::input_eq_spec(
                &cur[j].input,
                &(#[trigger] prev[j]).input,
            ) && prev[j].output is Some,
    ensures
        usable_prefix(cur, prev, i),
    decreases i + 1,
{
    if i >= 0 {
        lemma_reuse_aux(cur, prev, i - 1);
        assert(crate::executor::input_eq_spec(&cur[i].input, &prev[i].input));
    }
}

/// Re-running with unchanged input: when every current input equals the
/// previous one and every previous record has output, the whole cache is
/// usable, so the incremental executor reuses every output and runs
/// nothing.
pub proof fn lemma_unchanged_input_reuses_all(cur: Seq<Execution>, prev: Seq<Execution>)
    requires
        cur.len() <= prev.len(),
        forall|i: int|
            0 <= i < cur.len() ==> crate::executor::input_eq_spec(
                &cur[i].input,
                &(#[trigger] prev[i]).input,
            ) && prev[i].output is Some,
    ensures
        forall|i: int| 0 <= i < cur.len() ==> usable_prefix(cur, prev, i),
{
    assert forall|i: int| 0 <= i < cur.len() implies usable_prefix(cur, prev, i) by {
        lemma_reuse_aux(cur, prev, i);
    }
}

/// The executor's footprint: it only fills outputs in. Everything else of
/// the state is untouched, and each execution keeps its number, tag and
/// input.
pub open spec fn executor_shape(pre: MdduxState, post: MdduxState) -> bool {
    &&& post.environment == pre.environment
    &&& post.contents == pre.contents
    &&& post.code_block_to_execution == pre.code_block_to_execution
    &&& post.front_matter == pre.front_matter
    &&& post.execution_configs == pre.execution_configs
    &&& post.format_configs == pre.format_configs
    &&& post.executions@.len() == pre.executions@.len()
    &&& forall|i: int|
        0 <= i < pre.executions@.len() ==> {
            &&& (#[trigger] post.executions@[i]).execution_count == pre.executions@[i].execution_count
            &&& post.executions@[i].type_@ == pre.executions@[i].type_@
            &&& crate::executor::input_eq_spec(
                &post.executions@[i].input,
                &pre.executions@[i].input,
            )
        }
}

impl MdduxState {
    /// The merged execution settings of execution `i`.
    pub fn compose_execution_config(&self, i: usize, execution: &Execution) -> (r: ExecutionConfig)
        requires
            i < self.execution_configs@.len(),
        ensures
            r == compose_execution_config_spec(
                self.environment@,
                self.execution_configs@[i as int],
                execution.type_@,
            ),
    {
        let mut execution_config = self.environment.execution.clone();
        match self.environment.runners.get(execution.type_.as_str()) {
            Some(rc) => match &rc.exection {
                Some(e) => execution_config.apply(e),
                None => {},
            },
            None => {},
        }
        execution_config.apply(&self.execution_configs[i]);
        execution_config
    }

    /// The merged format settings of execution `i`.
    pub fn compose_format_config(&self, i: usize, execution: &Execution) -> (r: FormatConfig)
        requires
            i < self.format_configs@.len(),
        ensures
            r@ == compose_format_config_spec(
                self.environment@,
                self.format_configs@[i as int]@,
                execution.type_@,
            ),
    {
        let mut format_config = self.environment.format.clone();
        match self.environment.runners.get(execution.type_.as_str()) {
            Some(rc) => match &rc.format {
                Some(f) => format_config.apply(f),
                None => {},
            },
            None => {},
        }
        format_config.apply(&self.format_configs[i]);
        format_config
    }

    /// The merged execution settings of every execution, in order.
    pub fn compose_execution_configs(&self) -> (r: Vec<ExecutionConfig>)
        requires
            self.wf(),
        ensures
            r@.len() == self.executions@.len(),
            forall|i: int|
                0 <= i < r@.len() ==> #[trigger] r@[i] == compose_execution_config_spec(
                    self.environment@,
                    self.execution_configs@[i],
                    self.executions@[i].type_@,
                ),
    {
        let mut r: Vec<ExecutionConfig> = Vec::new();
        let mut i: usize = 0;
        while i < self.executions.len()
            invariant
                self.wf(),
                i <= self.executions@.len(),
                r@.len() == i,
                forall|j: int|
                    0 <= j < i ==> #[trigger] r@[j] == compose_execution_config_spec(
                        self.environment@,
                        self.execution_configs@[j],
                        self.executions@[j].type_@,
                    ),
            decreases self.executions@.len() - i,
        {
            r.push(self.compose_execution_config(i, &self.executions[i]));
            i += 1;
        }
        r
    }

    /// Runs every planned execution unconditionally (skipped blocks
    /// excepted), in document order, stopping at the first failure. A
    /// failure can only be the capability's: with one that cannot fail —
    /// or with every block skipped — success is owed.
    pub fn execute_all<F: Fn(&ExecutionInput) -> Result<ExecutionOutput, MdduxError>>(
        &mut self,
        run: &F,
    ) -> (r: Result<(), MdduxError>)
        requires
            old(self).wf(),
            forall|x: &ExecutionInput| call_requires(*run, (x,)),
        ensures
            final(self).wf(),
            executor_shape(*old(self), *final(self)),
            r is Ok ==> forall|i: int|
                0 <= i < old(self).executions@.len() ==> #[trigger] all_mode_post(
                    *old(self),
                    *final(self),
                    *run,
                    i,
                ),
            run_total(*run) ==> r is Ok,
            (forall|i: int| 0 <= i < old(self).executions@.len() ==> #[trigger] is_skipped(
                *old(self),
                i,
            )) ==> r is Ok,
            r matches Err(e) ==> exists|i: int|
                0 <= i < old(self).executions@.len() && #[trigger] call_ensures(
                    *run,
                    (&final(self).executions@[i].input,),
                    Err(e),
                ),
            r is Err ==> exists|k: int|
                #![trigger old(self).executions@[k]]
                0 <= k < old(self).executions@.len() && (forall|j: int|
                    0 <= j < k ==> #[trigger] all_mode_post(*old(self), *final(self), *run, j))
                    && (forall|j: int|
                    k <= j < old(self).executions@.len()
                        ==> crate::executor::opt_output_eq_spec(
                        &(#[trigger] final(self).executions@[j]).output,
                        &old(self).executions@[j].output,
                    )),
    {
        let configs = self.compose_execution_configs();
        let n = self.executions.len();
        let mut i: usize = 0;
        while i < n
            invariant
                self.wf(),
                forall|x: &ExecutionInput| call_requires(*run, (x,)),
                n == old(self).executions@.len(),
                i <= n,
                configs@.len() == n,
                forall|j: int|
                    0 <= j < n ==> #[trigger] configs@[j] == compose_execution_config_spec(
                        old(self).environment@,
                        old(self).execution_configs@[j],
                        old(self).executions@[j].type_@,
                    ),
                executor_shape(*old(self), *self),
                forall|j: int| i <= j < n ==> #[trigger] self.executions@[j] == old(self).executions@[j],
                forall|j: int|
                    0 <= j < i ==> #[trigger] all_mode_post(*old(self), *self, *run, j),
            decreases n - i,
        {
            let mut e = self.executions[i].clone();
            let res = e.execute(&configs[i], run);
            let ghost prev_self = *self;
            self.executions[i] = e;
            proof {
                assert forall|j: int| 0 <= j < i implies #[trigger] all_mode_post(
                    *old(self),
                    *self,
                    *run,
                    j,
                ) by {
                    assert(all_mode_post(*old(self), prev_self, *run, j));
                    assert(self.executions@[j] == prev_self.executions@[j]);
                }
            }
            match res {
                Ok(()) => {},
                Err(err) => {
                    proof {
                        let ghost ki = i as int;
                        assert(call_ensures(
                            *run,
                            (&self.executions@[ki].input,),
                            Err::<ExecutionOutput, MdduxError>(err),
                        ));
                        assert(!is_skipped(*old(self), ki));
                        assert forall|j: int|
                            ki <= j < n implies crate::executor::opt_output_eq_spec(
                            &(#[trigger] self.executions@[j]).output,
                            &old(self).executions@[j].output,
                        ) by {
                            if j != ki {
                                assert(self.executions@[j] == prev_self.executions@[j]);
                                assert(prev_self.executions@[j] == old(self).executions@[j]);
                            }
                        }
                        assert(old(self).executions@[ki] == old(self).executions@[ki]);
                    }
                    return Err(err);
                },
            }
            i += 1;
        }
        Ok(())
    }

    /// The fast path when no previous state was supplied: runs exactly
    /// the executions that have no output yet — idempotent re-entry
    /// within one run. A failure can only be the capability's: with one
    /// that cannot fail, or with nothing left to run, success is owed.
    pub fn execute_if_needed_fast_path<
        F: Fn(&ExecutionInput) -> Result<ExecutionOutput, MdduxError>,
    >(&mut self, run: &F) -> (r: Result<(), MdduxError>)
        requires
            old(self).wf(),
            forall|x: &ExecutionInput| call_requires(*run, (x,)),
        ensures
            final(self).wf(),
            executor_shape(*old(self), *final(self)),
            r is Ok ==> forall|i: int|
                0 <= i < old(self).executions@.len() ==> #[trigger] fast_mode_post(
                    *old(self),
                    *final(self),
                    *run,
                    i,
                ),
            run_total(*run) ==> r is Ok,
            (forall|i: int|
                0 <= i < old(self).executions@.len() ==> (#[trigger] old(
                    self,
                ).executions@[i]).output is Some || is_skipped(*old(self), i)) ==> r is Ok,
            r matches Err(e) ==> exists|i: int|
                0 <= i < old(self).executions@.len() && #[trigger] call_ensures(
                    *run,
                    (&final(self).executions@[i].input,),
                    Err(e),
                ),
            r is Err ==> exists|k: int|
                #![trigger old(self).executions@[k]]
                0 <= k < old(self).executions@.len() && (forall|j: int|
                    0 <= j < k ==> #[trigger] fast_mode_post(*old(self), *final(self), *run, j))
                    && (forall|j: int|
                    k <= j < old(self).executions@.len()
                        ==> crate::executor::opt_output_eq_spec(
                        &(#[trigger] final(self).executions@[j]).output,
                        &old(self).executions@[j].output,
                    )),
    {
        let configs = self.compose_execution_configs();
        let n = self.executions.len();
        let mut i: usize = 0;
        while i < n
            invariant
                self.wf(),
                forall|x: &ExecutionInput| call_requires(*run, (x,)),
                n == old(self).executions@.len(),
                i <= n,
                configs@.len() == n,
                forall|j: int|
                    0 <= j < n ==> #[trigger] configs@[j] == compose_execution_config_spec(
                        old(self).environment@,
                        old(self).execution_configs@[j],
                        old(self).executions@[j].type_@,
                    ),
                executor_shape(*old(self), *self),
                forall|j: int| i <= j < n ==> #[trigger] self.executions@[j] == old(self).executions@[j],
                forall|j: int|
                    0 <= j < i ==> #[trigger] fast_mode_post(*old(self), *self, *run, j),
            decreases n - i,
        {
            if self.executions[i].output.is_none() {
                let mut e = self.executions[i].clone();
                let res = e.execute(&configs[i], run);
                let ghost prev_self = *self;
                self.executions[i] = e;
                proof {
                    assert forall|j: int| 0 <= j < i implies #[trigger] fast_mode_post(
                        *old(self),
                        *self,
                        *run,
                        j,
                    ) by {
                        assert(fast_mode_post(*old(self), prev_self, *run, j));
                        assert(self.executions@[j] == prev_self.executions@[j]);
                    }
                }
                match res {
                    Ok(()) => {},
                    Err(err) => {
                        proof {
                            let ghost ki = i as int;
                            assert(call_ensures(
                                *run,
                                (&self.executions@[ki].input,),
                                Err::<ExecutionOutput, MdduxError>(err),
                            ));
                            assert(!is_skipped(*old(self), ki));
                            assert(old(self).executions@[ki].output is None);
                            assert forall|j: int|
                                ki <= j < n implies crate::executor::opt_output_eq_spec(
                                &(#[trigger] self.executions@[j]).output,
                                &old(self).executions@[j].output,
                            ) by {
                                if j != ki {
                                    assert(self.executions@[j] == prev_self.executions@[j]);
                                    assert(prev_self.executions@[j] == old(self).executions@[j]);
                                }
                            }
                            assert(old(self).executions@[ki] == old(self).executions@[ki]);
                        }
                        return Err(err);
                    },
                }
            }
            i += 1;
        }
        Ok(())
    }

    /// Diffs this run's plan against the previous run's records by
    /// position. While the aligned prefix holds (same input, output
    /// present), outputs are reused without running anything; the first
    /// divergence permanently stops reuse, and everything after it runs
    /// again, even positions whose own input is unchanged.
    pub fn execute_if_needed_with_old_state<
        F: Fn(&ExecutionInput) -> Result<ExecutionOutput, MdduxError>,
    >(&mut self, old_state: &MdduxState, run: &F) -> (r: Result<(), MdduxError>)
        requires
            old(self).wf(),
            forall|x: &ExecutionInput| call_requires(*run, (x,)),
        ensures
            final(self).wf(),
            executor_shape(*old(self), *final(self)),
            r is Ok ==> forall|i: int|
                0 <= i < old(self).executions@.len() ==> #[trigger] diff_mode_post(
                    *old(self),
                    *old_state,
                    *final(self),
                    *run,
                    i,
                ),
            run_total(*run) ==> r is Ok,
            (forall|i: int|
                0 <= i < old(self).executions@.len() ==> usable_prefix(
                    old(self).executions@,
                    old_state.executions@,
                    i,
                ) || #[trigger] is_skipped(*old(self), i)) ==> r is Ok,
            r matches Err(e) ==> exists|i: int|
                0 <= i < old(self).executions@.len() && #[trigger] call_ensures(
                    *run,
                    (&final(self).executions@[i].input,),
                    Err(e),
                ),
            r is Err ==> exists|k: int|
                #![trigger old(self).executions@[k]]
                0 <= k < old(self).executions@.len() && (forall|j: int|
                    0 <= j < k ==> #[trigger] diff_mode_post(
                        *old(self),
                        *old_state,
                        *final(self),
                        *run,
                        j,
                    )) && (forall|j: int|
                    k <= j < old(self).executions@.len()
                        ==> crate::executor::opt_output_eq_spec(
                        &(#[trigger] final(self).executions@[j]).output,
                        &old(self).executions@[j].output,
                    )),
    {
        let configs = self.compose_execution_configs();
        let n = self.executions.len();
        let mut old_state_usable = true;
        let mut i: usize = 0;
        while i < n
            invariant
                self.wf(),
                forall|x: &ExecutionInput| call_requires(*run, (x,)),
                n == old(self).executions@.len(),
                i <= n,
                configs@.len() == n,
                forall|j: int|
                    0 <= j < n ==> #[trigger] configs@[j] == compose_execution_config_spec(
                        old(self).environment@,
                        old(self).execution_configs@[j],
                        old(self).executions@[j].type_@,
                    ),
                executor_shape(*old(self), *self),
                forall|j: int| i <= j < n ==> #[trigger] self.executions@[j] == old(self).executions@[j],
                old_state_usable <==> usable_prefix(
                    old(self).executions@,
                    old_state.executions@,
                    i as int - 1,
                ),
                forall|j: int|
                    0 <= j < i ==> #[trigger] diff_mode_post(
                        *old(self),
                        *old_state,
                        *self,
                        *run,
                        j,
                    ),
            decreases n - i,
        {
            let ghost gcur = old(self).executions@;
            let ghost gprev = old_state.executions@;
            if i < old_state.executions.len() {
                let prev = &old_state.executions[i];
                let hit = old_state_usable && self.executions[i].input == prev.input
                    && prev.output.is_some();
                if hit {
                    let cur = &self.executions[i];
                    let new_e = Execution {
                        execution_count: cur.execution_count,
                        type_: cur.type_.clone(),
                        input: cur.input.clone(),
                        output: crate::executor::clone_opt_output(&prev.output),
                    };
                    let ghost prev_self = *self;
                    self.executions[i] = new_e;
                    proof {
                        assert(usable_prefix(gcur, gprev, i as int));
                        assert forall|j: int| 0 <= j < i implies #[trigger] diff_mode_post(
                            *old(self),
                            *old_state,
                            *self,
                            *run,
                            j,
                        ) by {
                            assert(diff_mode_post(*old(self), *old_state, prev_self, *run, j));
                            assert(self.executions@[j] == prev_self.executions@[j]);
                        }
                    }
                } else {
                    let mut e = self.executions[i].clone();
                    let res = e.execute(&configs[i], run);
                    let ghost prev_self = *self;
                    self.executions[i] = e;
                    old_state_usable = false;
                    proof {
                        assert(!usable_prefix(gcur, gprev, i as int));
                        assert forall|j: int| 0 <= j < i implies #[trigger] diff_mode_post(
                            *old(self),
                            *old_state,
                            *self,
                            *run,
                            j,
                        ) by {
                            assert(diff_mode_post(*old(self), *old_state, prev_self, *run, j));
                            assert(self.executions@[j] == prev_self.executions@[j]);
                        }
                    }
                    match res {
                        Ok(()) => {},
                        Err(err) => {
                            proof {
                                let ghost ki = i as int;
                                assert(call_ensures(
                                    *run,
                                    (&self.executions@[ki].input,),
                                    Err::<ExecutionOutput, MdduxError>(err),
                                ));
                                assert(!is_skipped(*old(self), ki));
                                assert forall|j: int|
                                    ki <= j < n implies crate::executor::opt_output_eq_spec(
                                    &(#[trigger] self.executions@[j]).output,
                                    &old(self).executions@[j].output,
                                ) by {
                                    if j != ki {
                                        assert(self.executions@[j] == prev_self.executions@[j]);
                                        assert(prev_self.executions@[j] == old(
                                            self,
                                        ).executions@[j]);
                                    }
                                }
                                assert(old(self).executions@[ki] == old(self).executions@[ki]);
                            }
                            return Err(err);
                        },
                    }
                }
            } else {
                let mut e = self.executions[i].clone();
                let res = e.execute(&configs[i], run);
                let ghost prev_self = *self;
                self.executions[i] = e;
                old_state_usable = false;
                proof {
                    assert(!usable_prefix(gcur, gprev, i as int));
                    assert forall|j: int| 0 <= j < i implies #[trigger] diff_mode_post(
                        *old(self),
                        *old_state,
                        *self,
                        *run,
                        j,
                    ) by {
                        assert(diff_mode_post(*old(self), *old_state, prev_self, *run, j));
                        assert(self.executions@[j] == prev_self.executions@[j]);
                    }
                }
                match res {
                    Ok(()) => {},
                    Err(err) => {
                        proof {
                            let ghost ki = i as int;
                            assert(call_ensures(
                                *run,
                                (&self.executions@[ki].input,),
                                Err::<ExecutionOutput, MdduxError>(err),
                            ));
                            assert(!is_skipped(*old(self), ki));
                            assert forall|j: int|
                                ki <= j < n implies crate::executor::opt_output_eq_spec(
                                &(#[trigger] self.executions@[j]).output,
                                &old(self).executions@[j].output,
                            ) by {
                                if j != ki {
                                    assert(self.executions@[j] == prev_self.executions@[j]);
                                    assert(prev_self.executions@[j] == old(self).executions@[j]);
                                }
                            }
                            assert(old(self).executions@[ki] == old(self).executions@[ki]);
                        }
                        return Err(err);
                    },
                }
            }
            i += 1;
        }
        Ok(())
    }

    /// Executes what the previous run's records cannot cover: the
    /// position-aligned diff when a previous state is supplied, the fast
    /// path otherwise.
    pub fn execute_if_needed<F: Fn(&ExecutionInput) -> Result<ExecutionOutput, MdduxError>>(
        &mut self,
        old_state: &Option<MdduxState>,
        run: &F,
    ) -> (r: Result<(), MdduxError>)
        requires
            old(self).wf(),
            forall|x: &ExecutionInput| call_requires(*run, (x,)),
        ensures
            final(self).wf(),
            executor_shape(*old(self), *final(self)),
            r is Ok ==> match old_state {
                Some(os) => forall|i: int|
                    0 <= i < old(self).executions@.len() ==> #[trigger] diff_mode_post(
                        *old(self),
                        *os,
                        *final(self),
                        *run,
                        i,
                    ),
                None => forall|i: int|
                    0 <= i < old(self).executions@.len() ==> #[trigger] fast_mode_post(
                        *old(self),
                        *final(self),
                        *run,
                        i,
                    ),
            },
            run_total(*run) ==> r is Ok,
            r matches Err(e) ==> exists|i: int|
                0 <= i < old(self).executions@.len() && #[trigger] call_ensures(
                    *run,
                    (&final(self).executions@[i].input,),
                    Err(e),
                ),
    {
        match old_state {
            Some(os) => self.execute_if_needed_with_old_state(os, run),
            None => self.execute_if_needed_fast_path(run),
        }
    }
}

/// The environment a fresh state starts from, given a configuration.
pub open spec fn config_env(config: &Config) -> crate::executor::ExecutionEnvironmentV {
    crate::executor::ExecutionEnvironmentV {
        execution: match config.execution {
            Some(e) => e,
            None => ExecutionConfig { skipped: None },
        },
        format: match config.format {
            Some(f) => f@,
            None => format_config_none(),
        },
        runners: match config.runners {
            Some(rs) => rs@,
            None => Seq::empty(),
        },
    }
}

/// Two states planned from the same plan, with byte stdin payloads, carry
/// pairwise the same execution inputs: planning is deterministic up to
/// what the cache compares.
pub proof fn lemma_replan_inputs_match(
    p: crate::parser::PlanV,
    a: MdduxState,
    b: MdduxState,
)
    requires
        crate::parser::plan_exact(p, a),
        crate::parser::plan_exact(p, b),
        forall|i: int|
            0 <= i < a.executions@.len() ==> (#[trigger] a.executions@[i]).input.stdin is Binary,
        forall|i: int|
            0 <= i < b.executions@.len() ==> (#[trigger] b.executions@[i]).input.stdin is Binary,
    ensures
        a.executions@.len() == b.executions@.len(),
        forall|i: int|
            0 <= i < a.executions@.len() ==> crate::executor::input_eq_spec(
                &(#[trigger] b.executions@[i]).input,
                &a.executions@[i].input,
            ),
{
    assert forall|i: int|
        0 <= i < a.executions@.len() implies crate::executor::input_eq_spec(
        &(#[trigger] b.executions@[i]).input,
        &a.executions@[i].input,
    ) by {
        let ea = a.executions@[i];
        let eb = b.executions@[i];
        assert(crate::parser::exec_view(ea) == p.executions[i]);
        assert(crate::parser::exec_view(eb) == p.executions[i]);
        assert(ea.input.stdin@ == eb.input.stdin@);
        match (eb.input.stdin, ea.input.stdin) {
            (crate::content::Content::Binary(x), crate::content::Content::Binary(y)) => {
                assert(x@ == y@);
            },
            _ => {
                assert(false);
            },
        }
    }
}

/// Idempotence of a re-run with unchanged input: a state planned from the
/// same document as a fully executed previous state finds the whole cache
/// usable, so the position-aligned diff copies every output and executes
/// nothing.
pub proof fn lemma_rerun_executes_nothing(
    p: crate::parser::PlanV,
    st1: MdduxState,
    st2: MdduxState,
)
    requires
        crate::parser::plan_exact(p, st1),
        crate::parser::plan_exact(p, st2),
        forall|i: int|
            0 <= i < st1.executions@.len() ==> (#[trigger] st1.executions@[i]).input.stdin is Binary
                && st1.executions@[i].output is Some,
        forall|i: int|
            0 <= i < st2.executions@.len() ==> (#[trigger] st2.executions@[i]).input.stdin is Binary,
    ensures
        forall|i: int|
            0 <= i < st2.executions@.len() ==> usable_prefix(
                st2.executions@,
                st1.executions@,
                i,
            ),
{
    lemma_replan_inputs_match(p, st1, st2);
    lemma_unchanged_input_reuses_all(st2.executions@, st1.executions@);
}

/// Copying the previous run's outputs into an identically planned state
/// makes the formatter prescribe the very same rewrite: a re-run with
/// unchanged input reproduces the output document.
pub proof fn lemma_copied_outputs_reproduce_patches(
    p: crate::parser::PlanV,
    st1: MdduxState,
    st2: MdduxState,
    caption_on: bool,
)
    requires
        st1.wf(),
        st2.wf(),
        crate::parser::plan_exact(p, st1),
        crate::parser::plan_exact(p, st2),
        st1.environment@ == st2.environment@,
        forall|i: int|
            0 <= i < st2.executions@.len() ==> crate::executor::opt_output_eq_spec(
                &(#[trigger] st2.executions@[i]).output,
                &st1.executions@[i].output,
            ),
    ensures
        forall|k: int| #[trigger] crate::formatter::code_block_patch_spec(st2, caption_on, k)
            == crate::formatter::code_block_patch_spec(st1, caption_on, k),
{
    assert forall|k: int| #[trigger] crate::formatter::code_block_patch_spec(st2, caption_on, k)
        == crate::formatter::code_block_patch_spec(st1, caption_on, k) by {
        if 0 <= k < st1.code_block_to_execution@.len() {
            assert((match st1.code_block_to_execution@[k] {
                Some(x) => Some(x as int),
                None => None::<int>,
            }) == p.mapping[k]);
            assert((match st2.code_block_to_execution@[k] {
                Some(x) => Some(x as int),
                None => None::<int>,
            }) == p.mapping[k]);
            match st1.code_block_to_execution@[k] {
                Some(e) => {
                    let e1 = st1.executions@[e as int];
                    let e2 = st2.executions@[e as int];
                    assert(e < st1.executions@.len());
                    assert(e < p.executions.len());
                    assert(crate::parser::exec_view(e1) == p.executions[e as int]);
                    assert(crate::parser::exec_view(e2) == p.executions[e as int]);
                    assert(st1.contents@[e as int]@ == p.contents[e as int]);
                    assert(st2.contents@[e as int]@ == p.contents[e as int]);
                    assert(st1.execution_configs@[e as int] == p.exec_configs[e as int]);
                    assert(st2.execution_configs@[e as int] == p.exec_configs[e as int]);
                    assert(st1.format_configs@[e as int]@ == p.format_configs[e as int]);
                    assert(st2.format_configs@[e as int]@ == p.format_configs[e as int]);
                    crate::formatter::lemma_block_patch_congruence(
                        p.contents[e as int],
                        e1,
                        e2,
                        caption_on,
                        p.exec_configs[e as int],
                        p.format_configs[e as int],
                    );
                },
                None => {},
            }
        }
    }
}

/// No caption template is configured anywhere the document's blocks can
/// reach: none in the environment's defaults, none in any registered
/// runner's format override, none in any block's directives. With none,
/// the formatter cannot reject a template.
pub open spec fn no_caption_templates(
    env: crate::executor::ExecutionEnvironmentV,
    p: crate::parser::PlanV,
) -> bool {
    &&& env.format.stdin_caption_format is None
    &&& env.format.stdout_caption_format is None
    &&& env.format.stderr_caption_format is None
    &&& forall|i: int|
        0 <= i < env.runners.len() ==> match (#[trigger] env.runners[i]).1.format {
            Some(f) => f.stdin_caption_format is None && f.stdout_caption_format is None
                && f.stderr_caption_format is None,
            None => true,
        }
    &&& forall|i: int|
        0 <= i < p.format_configs.len() ==> (#[trigger] p.format_configs[i]).stdin_caption_format is None
            && p.format_configs[i].stdout_caption_format is None
            && p.format_configs[i].stderr_caption_format is None
}

/// The whole pipeline on one document: plan it, run what must run through
/// the subprocess capability, and compute the document's rewrite.
pub fn run<F: Fn(&ExecutionInput) -> Result<ExecutionOutput, MdduxError>>(
    doc: &Vec<crate::document::MdNode>,
    config: &Config,
    exec: &F,
) -> (r: Result<(MdduxState, crate::formatter::DocPatch), MdduxError>)
    requires
        match config.runners {
            Some(rs) => crate::config::runners_wf(rs@),
            None => true,
        },
        doc@.len() < 0x7fff_ffff,
        forall|x: &ExecutionInput| call_requires(*exec, (x,)),
    ensures
        run_total(*exec) && crate::document::fm_free(doc@) && !crate::formatter::caption_enabled(
            config,
        ) ==> r is Ok,
        crate::document::fm_free(doc@) && (forall|i: int|
            0 <= i < crate::parser::plan_spec(config_env(config), doc@).executions.len()
                ==> #[trigger] compose_execution_config_spec(
                config_env(config),
                crate::parser::plan_spec(config_env(config), doc@).exec_configs[i],
                crate::parser::plan_spec(config_env(config), doc@).executions[i].type_,
            ).skipped == Some(true)) ==> r is Ok,
        run_total(*exec) && crate::document::fm_free(doc@) ==> (r is Ok || (r matches Err(e)
            && e is CaptionFormat)),
        run_total(*exec) && crate::document::fm_free(doc@) && no_caption_templates(
            config_env(config),
            crate::parser::plan_spec(config_env(config), doc@),
        ) ==> r is Ok,
        r matches Err(e) ==> ((!crate::document::fm_free(doc@) && (e is FrontMatterEncoding
            || e is FrontMatterYaml || e is FrontMatterEmit)) || e is CaptionFormat || exists|
            inp: ExecutionInput,
        |
            #[trigger] call_ensures(*exec, (&inp,), Err::<ExecutionOutput, MdduxError>(e))),
        r matches Ok(sp) ==> {
            &&& sp.0.wf()
            &&& crate::parser::numbering_ok(sp.0)
            &&& forall|i: int|
                0 <= i < sp.0.executions@.len() ==> if is_skipped(sp.0, i) {
                    (#[trigger] sp.0.executions@[i]).output is None
                } else {
                    sp.0.executions@[i].output matches Some(out) && call_ensures(
                        *exec,
                        (&sp.0.executions@[i].input,),
                        Ok(out),
                    )
                }
            &&& sp.1.blocks@.len() == crate::document::count_code_blocks(doc@)
            &&& forall|k: int|
                0 <= k < sp.1.blocks@.len() ==> (#[trigger] sp.1.blocks@[k])@
                    == crate::formatter::code_block_patch_spec(
                    sp.0,
                    crate::formatter::caption_enabled(config),
                    k,
                )
            &&& (match (&sp.1.front_matter, &sp.0.front_matter) {
                (Some(a), Some(b)) => a@ == b@,
                (None, None) => true,
                _ => false,
            })
            &&& (crate::document::fm_free(doc@) ==> crate::parser::plan_exact(
                crate::parser::plan_spec(config_env(config), doc@),
                sp.0,
            ) && sp.0.environment@ == config_env(config))
        },
{
    let mut state = MdduxState::from_config(config);
    proof {
        assert(state.environment@ =~= config_env(config));
    }
    match crate::parser::parse(&mut state, config, doc) {
        Err(e) => {
            return Err(e);
        },
        Ok(()) => {},
    }
    let ghost planned = state;
    proof {
        if crate::document::fm_free(doc@) {
            let p = crate::parser::plan_spec(config_env(config), doc@);
            assert(crate::parser::plan_exact(p, planned));
            if forall|i: int|
                0 <= i < p.executions.len() ==> #[trigger] compose_execution_config_spec(
                    config_env(config),
                    p.exec_configs[i],
                    p.executions[i].type_,
                ).skipped == Some(true) {
                assert forall|i: int|
                    0 <= i < planned.executions@.len() implies #[trigger] is_skipped(
                    planned,
                    i,
                ) by {
                    assert(crate::parser::exec_view(planned.executions@[i]) == p.executions[i]);
                    assert(planned.execution_configs@[i] == p.exec_configs[i]);
                    assert(compose_execution_config_spec(
                        config_env(config),
                        p.exec_configs[i],
                        p.executions[i].type_,
                    ).skipped == Some(true));
                }
            }
        }
    }
    match state.execute_all(exec) {
        Err(e) => {
            proof {
                let wi = choose|i: int|
                    0 <= i < planned.executions@.len() && #[trigger] call_ensures(
                        *exec,
                        (&state.executions@[i].input,),
                        Err::<ExecutionOutput, MdduxError>(e),
                    );
                assert(call_ensures(
                    *exec,
                    (&state.executions@[wi].input,),
                    Err::<ExecutionOutput, MdduxError>(e),
                ));
            }
            return Err(e);
        },
        Ok(()) => {},
    }
    proof {
        assert forall|i: int|
            0 <= i < state.executions@.len() implies (is_skipped(state, i) == is_skipped(
            planned,
            i,
        )) by {
            assert(state.executions@[i].type_@ == planned.executions@[i].type_@);
        }
        assert forall|i: int|
            0 <= i < state.executions@.len() implies (if is_skipped(state, i) {
                (#[trigger] state.executions@[i]).output is None
            } else {
                state.executions@[i].output matches Some(out) && call_ensures(
                    *exec,
                    (&state.executions@[i].input,),
                    Ok(out),
                )
            }) by {
            assert(all_mode_post(planned, state, *exec, i));
            if is_skipped(state, i) {
                assert(planned.executions@[i].output is None);
            }
        }
        if crate::document::fm_free(doc@) {
            let p = crate::parser::plan_spec(config_env(config), doc@);
            assert(crate::parser::plan_exact(p, planned));
            assert forall|i: int|
                0 <= i < p.executions.len() implies crate::parser::exec_view(
                #[trigger] state.executions@[i],
            ) == p.executions[i] by {
                let ea = planned.executions@[i];
                let eb = state.executions@[i];
                assert(crate::parser::exec_view(ea) == p.executions[i]);
                crate::content::lemma_content_eq_view(&eb.input.stdin, &ea.input.stdin);
            }
            assert(crate::parser::plan_exact(p, state));
        }
    }
    let patch = match crate::formatter::format(&state, config, doc) {
        Err(e) => {
            proof {
                if !crate::formatter::caption_enabled(config) {
                    assert(crate::formatter::doc_patch_ok(
                        state,
                        crate::formatter::caption_enabled(config),
                        crate::document::count_code_blocks(doc@),
                    ));
                }
                if crate::document::fm_free(doc@) && no_caption_templates(
                    config_env(config),
                    crate::parser::plan_spec(config_env(config), doc@),
                ) {
                    let p = crate::parser::plan_spec(config_env(config), doc@);
                    let env = config_env(config);
                    assert(state.environment@ == env);
                    assert forall|k: int|
                        0 <= k < crate::document::count_code_blocks(doc@) && k
                            < state.code_block_to_execution@.len() implies match #[trigger] state.code_block_to_execution@[k] {
                        Some(e2) => crate::formatter::block_patch_ok(
                            state.executions@[e2 as int],
                            crate::formatter::caption_enabled(config),
                            compose_execution_config_spec(
                                state.environment@,
                                state.execution_configs@[e2 as int],
                                state.executions@[e2 as int].type_@,
                            ),
                            compose_format_config_spec(
                                state.environment@,
                                state.format_configs@[e2 as int]@,
                                state.executions@[e2 as int].type_@,
                            ),
                        ),
                        None => true,
                    } by {
                        match state.code_block_to_execution@[k] {
                            Some(e2) => {
                                let tag = state.executions@[e2 as int].type_@;
                                let blockf = state.format_configs@[e2 as int]@;
                                assert(blockf == p.format_configs[e2 as int]);
                                let mid = match crate::config::assoc_get(env.runners, tag) {
                                    Some(rc) => match rc.format {
                                        Some(f) => crate::config::format_apply_spec(
                                            env.format,
                                            f,
                                        ),
                                        None => env.format,
                                    },
                                    None => env.format,
                                };
                                if crate::config::assoc_get(env.runners, tag) is Some {
                                    crate::config::lemma_assoc_get_is_entry(env.runners, tag);
                                }
                                assert(mid.stdin_caption_format is None
                                    && mid.stdout_caption_format is None
                                    && mid.stderr_caption_format is None);
                                let fc = compose_format_config_spec(env, blockf, tag);
                                assert(fc.stdin_caption_format is None
                                    && fc.stdout_caption_format is None
                                    && fc.stderr_caption_format is None);
                            },
                            None => {},
                        }
                    }
                    assert(crate::formatter::doc_patch_ok(
                        state,
                        crate::formatter::caption_enabled(config),
                        crate::document::count_code_blocks(doc@),
                    ));
                }
            }
            return Err(e);
        },
        Ok(p) => p,
    };
    Ok((state, patch))
}

} // verus!
