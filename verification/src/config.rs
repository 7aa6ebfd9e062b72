//! Runner, execution and format configuration: the three-layer overlay
//! (environment default, runner override, block directive), the directive
//! key table, and the built-in runner registry.

use vstd::prelude::*;

use crate::text::{ascii_lower_spec, str_eq};

verus! {

/// Picks the overriding layer's field where it is present, else the base's.
pub open spec fn overlay<A>(base: Option<A>, over: Option<A>) -> Option<A> {
    if over is Some {
        over
    } else {
        base
    }
}

/// Per-block execution settings, merged across layers.
#[derive(Debug)]
pub struct ExecutionConfig {
    pub skipped: Option<bool>,
}

impl Clone for ExecutionConfig {
    fn clone(&self) -> (r: Self)
        ensures
            r == *self,
    {
        ExecutionConfig { skipped: self.skipped }
    }
}

impl ExecutionConfig {
    /// An empty layer: nothing overridden.
    pub fn new() -> (r: ExecutionConfig)
        ensures
            r.skipped is None,
    {
        ExecutionConfig { skipped: None }
    }

    /// Lays `other` over `self`: present fields of `other` win.
    pub fn apply(&mut self, other: &ExecutionConfig)
        ensures
            final(self).skipped == overlay(old(self).skipped, other.skipped),
    {
        if let Some(v) = other.skipped {
            self.skipped = Some(v);
        }
    }

    /// Sets the field that `key` names from its textual `value`; reports
    /// whether `key` names an execution setting at all.
    pub fn insert_with_str(&mut self, key: &str, value: &str) -> (r: bool)
        ensures
            r == (key@ == "skipped"@),
            final(self).skipped == if key@ == "skipped"@ {
                Some(ascii_lower_spec(value@) == ascii_lower_spec("true"@))
            } else {
                old(self).skipped
            },
    {
        if str_eq(key, "skipped") {
            self.skipped = Some(crate::text::eq_ignore_ascii_case(value, "true"));
            true
        } else {
            false
        }
    }
}

/// The ghost image of a `FormatConfig`.
pub struct FormatConfigV {
    pub stdin_hidden: Option<bool>,
    pub stdin_caption_format: Option<Seq<char>>,
    pub stdin_caption_hidden: Option<bool>,
    pub stdout_hidden: Option<bool>,
    pub stdout_caption_format: Option<Seq<char>>,
    pub stdout_caption_hidden: Option<bool>,
    pub stdout_info: Option<Seq<char>>,
    pub stderr_hidden: Option<bool>,
    pub stderr_caption_format: Option<Seq<char>>,
    pub stderr_caption_hidden: Option<bool>,
    pub stderr_info: Option<Seq<char>>,
}

pub open spec fn view_opt_str(o: Option<String>) -> Option<Seq<char>> {
    match o {
        Some(s) => Some(s@),
        None => None,
    }
}

/// Per-block formatting settings, merged across layers.
#[derive(Debug)]
pub struct FormatConfig {
    pub stdin_hidden: Option<bool>,
    pub stdin_caption_format: Option<String>,
    pub stdin_caption_hidden: Option<bool>,
    pub stdout_hidden: Option<bool>,
    pub stdout_caption_format: Option<String>,
    pub stdout_caption_hidden: Option<bool>,
    pub stdout_info: Option<String>,
    pub stderr_hidden: Option<bool>,
    pub stderr_caption_format: Option<String>,
    pub stderr_caption_hidden: Option<bool>,
    pub stderr_info: Option<String>,
}

impl View for FormatConfig {
    type V = FormatConfigV;

    open spec fn view(&self) -> FormatConfigV {
        FormatConfigV {
            stdin_hidden: self.stdin_hidden,
            stdin_caption_format: view_opt_str(self.stdin_caption_format),
            stdin_caption_hidden: self.stdin_caption_hidden,
            stdout_hidden: self.stdout_hidden,
            stdout_caption_format: view_opt_str(self.stdout_caption_format),
            stdout_caption_hidden: self.stdout_caption_hidden,
            stdout_info: view_opt_str(self.stdout_info),
            stderr_hidden: self.stderr_hidden,
            stderr_caption_format: view_opt_str(self.stderr_caption_format),
            stderr_caption_hidden: self.stderr_caption_hidden,
            stderr_info: view_opt_str(self.stderr_info),
        }
    }
}

impl Clone for FormatConfig {
    fn clone(&self) -> (r: Self)
        ensures
            r == *self,
    {
        FormatConfig {
            stdin_hidden: self.stdin_hidden,
            stdin_caption_format: clone_opt_string(&self.stdin_caption_format),
            stdin_caption_hidden: self.stdin_caption_hidden,
            stdout_hidden: self.stdout_hidden,
            stdout_caption_format: clone_opt_string(&self.stdout_caption_format),
            stdout_caption_hidden: self.stdout_caption_hidden,
            stdout_info: clone_opt_string(&self.stdout_info),
            stderr_hidden: self.stderr_hidden,
            stderr_caption_format: clone_opt_string(&self.stderr_caption_format),
            stderr_caption_hidden: self.stderr_caption_hidden,
            stderr_info: clone_opt_string(&self.stderr_info),
        }
    }
}

/// A copy of an optional string, equal to its source.
pub fn clone_opt_string(o: &Option<String>) -> (r: Option<String>)
    ensures
        r == *o,
{
    match o {
        Some(s) => Some(s.clone()),
        None => None,
    }
}

/// The overlay of two format layers, field by field.
pub open spec fn format_apply_spec(base: FormatConfigV, over: FormatConfigV) -> FormatConfigV {
    FormatConfigV {
        stdin_hidden: overlay(base.stdin_hidden, over.stdin_hidden),
        stdin_caption_format: overlay(base.stdin_caption_format, over.stdin_caption_format),
        stdin_caption_hidden: overlay(base.stdin_caption_hidden, over.stdin_caption_hidden),
        stdout_hidden: overlay(base.stdout_hidden, over.stdout_hidden),
        stdout_caption_format: overlay(base.stdout_caption_format, over.stdout_caption_format),
        stdout_caption_hidden: overlay(base.stdout_caption_hidden, over.stdout_caption_hidden),
        stdout_info: overlay(base.stdout_info, over.stdout_info),
        stderr_hidden: overlay(base.stderr_hidden, over.stderr_hidden),
        stderr_caption_format: overlay(base.stderr_caption_format, over.stderr_caption_format),
        stderr_caption_hidden: overlay(base.stderr_caption_hidden, over.stderr_caption_hidden),
        stderr_info: overlay(base.stderr_info, over.stderr_info),
    }
}

/// The set of directive keys that name a format setting.
pub open spec fn is_format_key(key: Seq<char>) -> bool {
    ||| key == "stdin-hidden"@
    ||| key == "stdin-caption-format"@
    ||| key == "stdin-caption-hidden"@
    ||| key == "stdout-hidden"@
    ||| key == "stdout-caption-format"@
    ||| key == "stdout-caption-hidden"@
    ||| key == "stdout-info"@
    ||| key == "stderr-hidden"@
    ||| key == "stderr-caption-format"@
    ||| key == "stderr-caption-hidden"@
    ||| key == "stderr-info"@
}

/// The format layer after setting the field that `key` names to `value`.
pub open spec fn format_insert_spec(c: FormatConfigV, key: Seq<char>, value: Seq<char>) -> FormatConfigV {
    let b = Some(ascii_lower_spec(value) == ascii_lower_spec("true"@));
    let s = Some(value);
    if key == "stdin-hidden"@ {
        FormatConfigV { stdin_hidden: b, ..c }
    } else if key == "stdin-caption-format"@ {
        FormatConfigV { stdin_caption_format: s, ..c }
    } else if key == "stdin-caption-hidden"@ {
        FormatConfigV { stdin_caption_hidden: b, ..c }
    } else if key == "stdout-hidden"@ {
        FormatConfigV { stdout_hidden: b, ..c }
    } else if key == "stdout-caption-format"@ {
        FormatConfigV { stdout_caption_format: s, ..c }
    } else if key == "stdout-caption-hidden"@ {
        FormatConfigV { stdout_caption_hidden: b, ..c }
    } else if key == "stdout-info"@ {
        FormatConfigV { stdout_info: s, ..c }
    } else if key == "stderr-hidden"@ {
        FormatConfigV { stderr_hidden: b, ..c }
    } else if key == "stderr-caption-format"@ {
        FormatConfigV { stderr_caption_format: s, ..c }
    } else if key == "stderr-caption-hidden"@ {
        FormatConfigV { stderr_caption_hidden: b, ..c }
    } else if key == "stderr-info"@ {
        FormatConfigV { stderr_info: s, ..c }
    } else {
        c
    }
}

/// The empty format layer: nothing overridden.
pub open spec fn format_config_none() -> FormatConfigV {
    FormatConfigV {
        stdin_hidden: None,
        stdin_caption_format: None,
        stdin_caption_hidden: None,
        stdout_hidden: None,
        stdout_caption_format: None,
        stdout_caption_hidden: None,
        stdout_info: None,
        stderr_hidden: None,
        stderr_caption_format: None,
        stderr_caption_hidden: None,
        stderr_info: None,
    }
}

impl FormatConfig {
    /// An empty layer: nothing overridden.
    pub fn new() -> (r: FormatConfig)
        ensures
            r@ == format_config_none(),
    {
        FormatConfig {
            stdin_hidden: None,
            stdin_caption_format: None,
            stdin_caption_hidden: None,
            stdout_hidden: None,
            stdout_caption_format: None,
            stdout_caption_hidden: None,
            stdout_info: None,
            stderr_hidden: None,
            stderr_caption_format: None,
            stderr_caption_hidden: None,
            stderr_info: None,
        }
    }

    /// Lays `other` over `self`: present fields of `other` win.
    pub fn apply(&mut self, other: &FormatConfig)
        ensures
            final(self)@ == format_apply_spec(old(self)@, other@),
    {
        if let Some(v) = other.stdin_hidden {
            self.stdin_hidden = Some(v);
        }
        if let Some(v) = &other.stdin_caption_format {
            self.stdin_caption_format = Some(v.clone());
        }
        if let Some(v) = other.stdin_caption_hidden {
            self.stdin_caption_hidden = Some(v);
        }
        if let Some(v) = other.stdout_hidden {
            self.stdout_hidden = Some(v);
        }
        if let Some(v) = &other.stdout_caption_format {
            self.stdout_caption_format = Some(v.clone());
        }
        if let Some(v) = other.stdout_caption_hidden {
            self.stdout_caption_hidden = Some(v);
        }
        if let Some(v) = &other.stdout_info {
            self.stdout_info = Some(v.clone());
        }
        if let Some(v) = other.stderr_hidden {
            self.stderr_hidden = Some(v);
        }
        if let Some(v) = &other.stderr_caption_format {
            self.stderr_caption_format = Some(v.clone());
        }
        if let Some(v) = other.stderr_caption_hidden {
            self.stderr_caption_hidden = Some(v);
        }
        if let Some(v) = &other.stderr_info {
            self.stderr_info = Some(v.clone());
        }
    }

    /// Sets the field that `key` names from its textual `value`; reports
    /// whether `key` names a format setting at all.
    pub fn insert_with_str(&mut self, key: &str, value: &str) -> (r: bool)
        ensures
            r == is_format_key(key@),
            final(self)@ == format_insert_spec(old(self)@, key@, value@),
    {
        if str_eq(key, "stdin-hidden") {
            self.stdin_hidden = Some(crate::text::eq_ignore_ascii_case(value, "true"));
            true
        } else if str_eq(key, "stdin-caption-format") {
            self.stdin_caption_format = Some(value.to_owned());
            true
        } else if str_eq(key, "stdin-caption-hidden") {
            self.stdin_caption_hidden = Some(crate::text::eq_ignore_ascii_case(value, "true"));
            true
        } else if str_eq(key, "stdout-hidden") {
            self.stdout_hidden = Some(crate::text::eq_ignore_ascii_case(value, "true"));
            true
        } else if str_eq(key, "stdout-caption-format") {
            self.stdout_caption_format = Some(value.to_owned());
            true
        } else if str_eq(key, "stdout-caption-hidden") {
            self.stdout_caption_hidden = Some(crate::text::eq_ignore_ascii_case(value, "true"));
            true
        } else if str_eq(key, "stdout-info") {
            self.stdout_info = Some(value.to_owned());
            true
        } else if str_eq(key, "stderr-hidden") {
            self.stderr_hidden = Some(crate::text::eq_ignore_ascii_case(value, "true"));
            true
        } else if str_eq(key, "stderr-caption-format") {
            self.stderr_caption_format = Some(value.to_owned());
            true
        } else if str_eq(key, "stderr-caption-hidden") {
            self.stderr_caption_hidden = Some(crate::text::eq_ignore_ascii_case(value, "true"));
            true
        } else if str_eq(key, "stderr-info") {
            self.stderr_info = Some(value.to_owned());
            true
        } else {
            false
        }
    }
}

/// The ghost image of a `RunnerConfig`.
pub struct RunnerConfigV {
    pub command: Seq<Seq<char>>,
    pub name: Option<Seq<char>>,
    pub special_comment_prefix: Option<Seq<char>>,
    pub special_comment_suffix: Option<Seq<char>>,
    pub exection: Option<ExecutionConfig>,
    pub format: Option<FormatConfigV>,
}

/// A copy of a string vector, with the same contents.
pub fn clone_string_vec(v: &Vec<String>) -> (r: Vec<String>)
    ensures
        r.deep_view() == v.deep_view(),
{
    let mut r: Vec<String> = Vec::new();
    let mut i: usize = 0;
    while i < v.len()
        invariant
            i <= v.len(),
            r@.len() == i,
            forall|j: int| 0 <= j < i ==> r.deep_view()[j] == v.deep_view()[j],
        decreases v.len() - i,
    {
        r.push(v[i].clone());
        i += 1;
    }
    proof {
        assert(r.deep_view() =~= v.deep_view());
    }
    r
}

/// How one language tag is run: the program with its fixed arguments, the
/// directive comment syntax, and per-runner overrides.
#[derive(Debug)]
pub struct RunnerConfig {
    pub command: Vec<String>,
    pub name: Option<String>,
    pub special_comment_prefix: Option<String>,
    pub special_comment_suffix: Option<String>,
    pub exection: Option<ExecutionConfig>,
    pub format: Option<FormatConfig>,
}

impl View for RunnerConfig {
    type V = RunnerConfigV;

    open spec fn view(&self) -> RunnerConfigV {
        RunnerConfigV {
            command: self.command.deep_view(),
            name: view_opt_str(self.name),
            special_comment_prefix: view_opt_str(self.special_comment_prefix),
            special_comment_suffix: view_opt_str(self.special_comment_suffix),
            exection: self.exection,
            format: match self.format {
                Some(f) => Some(f@),
                None => None,
            },
        }
    }
}

impl Clone for RunnerConfig {
    fn clone(&self) -> (r: Self)
        ensures
            r@ == self@,
    {
        RunnerConfig {
            command: clone_string_vec(&self.command),
            name: clone_opt_string(&self.name),
            special_comment_prefix: clone_opt_string(&self.special_comment_prefix),
            special_comment_suffix: clone_opt_string(&self.special_comment_suffix),
            exection: match &self.exection {
                Some(e) => Some(e.clone()),
                None => None,
            },
            format: match &self.format {
                Some(f) => Some(f.clone()),
                None => None,
            },
        }
    }
}

impl RunnerConfig {
    /// A runner that invokes `program` with no fixed arguments, named
    /// `name`, with directive prefix `prefix` and an empty suffix.
    pub fn plain(program: &str, name: &str, prefix: &str) -> (r: RunnerConfig)
        ensures
            r@.command == seq![program@],
            r@.name == Some(name@),
            r@.special_comment_prefix == Some(prefix@),
            r@.special_comment_suffix is None,
            r@.exection is None,
            r@.format is None,
    {
        let mut command: Vec<String> = Vec::new();
        command.push(program.to_owned());
        let r = RunnerConfig {
            command,
            name: Some(name.to_owned()),
            special_comment_prefix: Some(prefix.to_owned()),
            special_comment_suffix: None,
            exection: None,
            format: None,
        };
        proof {
            assert(r@.command =~= seq![program@]);
        }
        r
    }
}

/// The runner registry: language tag to runner, insertion order kept.
#[derive(Debug)]
pub struct Runners {
    entries: Vec<(String, RunnerConfig)>,
}

impl Clone for Runners {
    fn clone(&self) -> (r: Self)
        ensures
            r@ == self@,
    {
        let mut entries: Vec<(String, RunnerConfig)> = Vec::new();
        let mut i: usize = 0;
        while i < self.entries.len()
            invariant
                i <= self.entries.len(),
                entries@.len() == i,
                forall|j: int|
                    0 <= j < i ==> (entries@[j].0@, entries@[j].1@) == (
                    self.entries@[j].0@,
                    self.entries@[j].1@,
                ),
            decreases self.entries.len() - i,
        {
            let e = &self.entries[i];
            entries.push((e.0.clone(), e.1.clone()));
            i += 1;
        }
        let r = Runners { entries };
        proof {
            assert(r@ =~= self@);
        }
        r
    }
}

impl View for Runners {
    type V = Seq<(Seq<char>, RunnerConfigV)>;

    closed spec fn view(&self) -> Seq<(Seq<char>, RunnerConfigV)> {
        self.entries@.map_values(|e: (String, RunnerConfig)| (e.0@, e.1@))
    }
}

/// The runner registered for tag `k`: the first entry with that tag.
pub open spec fn assoc_get(s: Seq<(Seq<char>, RunnerConfigV)>, k: Seq<char>) -> Option<
    RunnerConfigV,
>
    decreases s.len(),
{
    if s.len() == 0 {
        None
    } else if s[0].0 == k {
        Some(s[0].1)
    } else {
        assoc_get(s.drop_first(), k)
    }
}

/// The position of the first entry with tag `k`, or the registry's
/// length when there is none.
pub open spec fn assoc_index(s: Seq<(Seq<char>, RunnerConfigV)>, k: Seq<char>) -> int
    decreases s.len(),
{
    if s.len() == 0 {
        0
    } else if s[0].0 == k {
        0
    } else {
        1 + assoc_index(s.drop_first(), k)
    }
}

pub proof fn lemma_assoc_index_at(s: Seq<(Seq<char>, RunnerConfigV)>, k: Seq<char>, i: int)
    requires
        0 <= i <= s.len(),
        forall|j: int| 0 <= j < i ==> (#[trigger] s[j]).0 != k,
        i < s.len() ==> s[i].0 == k,
    ensures
        assoc_index(s, k) == i,
    decreases i,
{
    if i > 0 {
        let t = s.drop_first();
        assert forall|j: int| 0 <= j < i - 1 implies (#[trigger] t[j]).0 != k by {
            assert(t[j] == s[j + 1]);
        }
        if i - 1 < t.len() {
            assert(t[i - 1] == s[i]);
        }
        lemma_assoc_index_at(t, k, i - 1);
    }
}

/// Registering `v` under `k`: the first entry with that tag is replaced
/// in place, or the pair is appended when the tag is new.
pub open spec fn runners_insert_view(
    s: Seq<(Seq<char>, RunnerConfigV)>,
    k: Seq<char>,
    v: RunnerConfigV,
) -> Seq<(Seq<char>, RunnerConfigV)> {
    let i = assoc_index(s, k);
    if i < s.len() {
        s.update(i, (k, v))
    } else {
        s.push((k, v))
    }
}

/// Registering every pair of `add` in order, each through
/// `runners_insert_view`.
pub open spec fn merge_runners_view(
    base: Seq<(Seq<char>, RunnerConfigV)>,
    add: Seq<(Seq<char>, RunnerConfigV)>,
) -> Seq<(Seq<char>, RunnerConfigV)>
    decreases add.len(),
{
    if add.len() == 0 {
        base
    } else {
        runners_insert_view(merge_runners_view(base, add.drop_last()), add.last().0, add.last().1)
    }
}

proof fn lemma_assoc_get_at(s: Seq<(Seq<char>, RunnerConfigV)>, i: int)
    requires
        0 <= i < s.len(),
        forall|j: int| 0 <= j < i ==> s[j].0 != s[i].0,
    ensures
        assoc_get(s, s[i].0) == Some(s[i].1),
    decreases i,
{
    if i > 0 {
        let t = s.drop_first();
        assert forall|j: int| 0 <= j < i - 1 implies (#[trigger] t[j]).0 != t[i - 1].0 by {
            assert(t[j] == s[j + 1]);
        }
        lemma_assoc_get_at(t, i - 1);
    }
}

proof fn lemma_assoc_get_absent(s: Seq<(Seq<char>, RunnerConfigV)>, k: Seq<char>)
    requires
        forall|j: int| 0 <= j < s.len() ==> s[j].0 != k,
    ensures
        assoc_get(s, k) is None,
    decreases s.len(),
{
    if s.len() > 0 {
        lemma_assoc_get_absent(s.drop_first(), k);
    }
}

proof fn lemma_assoc_get_update_one(
    s: Seq<(Seq<char>, RunnerConfigV)>,
    i: int,
    k: Seq<char>,
    v: RunnerConfigV,
    k2: Seq<char>,
)
    requires
        0 <= i < s.len(),
        s[i].0 == k,
        forall|j: int| 0 <= j < i ==> s[j].0 != k,
    ensures
        assoc_get(s.update(i, (k, v)), k2) == if k2 == k {
            Some(v)
        } else {
            assoc_get(s, k2)
        },
    decreases i,
{
    let u = s.update(i, (k, v));
    assert(u.len() == s.len());
    if i == 0 {
        assert(u[0] == (k, v));
        if k2 == k {
            assert(assoc_get(u, k2) == Some(v));
        } else {
            assert(u.drop_first() =~= s.drop_first());
            assert(assoc_get(u, k2) == assoc_get(u.drop_first(), k2));
            assert(assoc_get(s, k2) == assoc_get(s.drop_first(), k2));
        }
    } else {
        let t = s.drop_first();
        assert forall|j: int| 0 <= j < i - 1 implies (#[trigger] t[j]).0 != k by {
            assert(t[j] == s[j + 1]);
        }
        assert(t[i - 1] == s[i]);
        lemma_assoc_get_update_one(t, i - 1, k, v, k2);
        assert(u[0] == s[0]);
        assert(u.drop_first() =~= t.update(i - 1, (k, v)));
        if u[0].0 == k2 {
            assert(assoc_get(u, k2) == Some(u[0].1));
            assert(assoc_get(s, k2) == Some(s[0].1));
            assert(k2 != k);
        } else {
            assert(assoc_get(u, k2) == assoc_get(t.update(i - 1, (k, v)), k2));
            assert(assoc_get(s, k2) == assoc_get(t, k2));
        }
    }
}

proof fn lemma_assoc_get_push_one(
    s: Seq<(Seq<char>, RunnerConfigV)>,
    k: Seq<char>,
    v: RunnerConfigV,
    k2: Seq<char>,
)
    requires
        forall|j: int| 0 <= j < s.len() ==> s[j].0 != k,
    ensures
        assoc_get(s.push((k, v)), k2) == if k2 == k {
            Some(v)
        } else {
            assoc_get(s, k2)
        },
    decreases s.len(),
{
    let u = s.push((k, v));
    assert(u.len() == s.len() + 1);
    if s.len() == 0 {
        assert(u[0] == (k, v));
        if k2 == k {
            assert(assoc_get(u, k2) == Some(v));
        } else {
            let e = u.drop_first();
            assert(e.len() == 0);
            assert(assoc_get(e, k2) is None);
            assert(assoc_get(u, k2) == assoc_get(e, k2));
            assert(assoc_get(s, k2) is None);
        }
    } else {
        let t = s.drop_first();
        assert forall|j: int| 0 <= j < t.len() implies (#[trigger] t[j]).0 != k by {
            assert(t[j] == s[j + 1]);
        }
        lemma_assoc_get_push_one(t, k, v, k2);
        assert(u[0] == s[0]);
        assert(u.drop_first() =~= t.push((k, v)));
        if u[0].0 == k2 {
            assert(assoc_get(u, k2) == Some(u[0].1));
            assert(assoc_get(s, k2) == Some(s[0].1));
            assert(k2 != k);
        } else {
            assert(assoc_get(u, k2) == assoc_get(t.push((k, v)), k2));
            assert(assoc_get(s, k2) == assoc_get(t, k2));
        }
    }
}

impl Runners {
    /// An empty registry.
    pub fn new() -> (r: Runners)
        ensures
            r@ == Seq::<(Seq<char>, RunnerConfigV)>::empty(),
    {
        let r = Runners { entries: Vec::new() };
        proof {
            assert(r@ =~= Seq::<(Seq<char>, RunnerConfigV)>::empty());
        }
        r
    }

    /// The number of registered runners.
    pub fn len(&self) -> (r: usize)
        ensures
            r == self@.len(),
    {
        self.entries.len()
    }

    /// The tag and runner at position `i`, in registration order.
    pub fn entry_at(&self, i: usize) -> (r: (&String, &RunnerConfig))
        requires
            i < self@.len(),
        ensures
            (r.0@, r.1@) == self@[i as int],
    {
        let e = &self.entries[i];
        (&e.0, &e.1)
    }

    /// The runner registered for `key`, if any.
    pub fn get(&self, key: &str) -> (r: Option<&RunnerConfig>)
        ensures
            match r {
                Some(c) => assoc_get(self@, key@) == Some(c@),
                None => assoc_get(self@, key@) is None,
            },
    {
        let n = self.entries.len();
        let mut i: usize = 0;
        while i < n
            invariant
                n == self.entries.len(),
                i <= n,
                forall|j: int| 0 <= j < i ==> self@[j].0 != key@,
            decreases n - i,
        {
            if str_eq(self.entries[i].0.as_str(), key) {
                proof {
                    assert(self@[i as int].0 == key@);
                    lemma_assoc_get_at(self@, i as int);
                }
                return Some(&self.entries[i].1);
            }
            proof {
                assert(self@[i as int].0 == self.entries@[i as int].0@);
            }
            i += 1;
        }
        proof {
            lemma_assoc_get_absent(self@, key@);
        }
        None
    }

    /// Registers `value` under `key`, replacing any earlier runner for the
    /// same tag.
    pub fn insert(&mut self, key: String, value: RunnerConfig)
        ensures
            final(self)@ == runners_insert_view(old(self)@, key@, value@),
            forall|k2: Seq<char>| #[trigger] assoc_get(final(self)@, k2) == if k2 == key@ {
                Some(value@)
            } else {
                assoc_get(old(self)@, k2)
            },
            final(self)@.len() <= old(self)@.len() + 1,
            forall|i: int|
                0 <= i < final(self)@.len() ==> (i < old(self)@.len() && #[trigger] final(
                    self)@[i] == old(self)@[i]) || final(self)@[i] == (key@, value@),
    {
        let n = self.entries.len();
        let mut i: usize = 0;
        while i < n
            invariant
                self.entries@ == old(self).entries@,
                n == self.entries.len(),
                i <= n,
                forall|j: int| 0 <= j < i ==> self@[j].0 != key@,
            decreases n - i,
        {
            if str_eq(self.entries[i].0.as_str(), key.as_str()) {
                let ghost prev = self@;
                let ghost keyv = key@;
                let _old = self.entries.remove(i);
                self.entries.insert(i, (key, value));
                proof {
                    assert(self@ =~= prev.update(i as int, (keyv, value@)));
                    assert(prev[i as int].0 == keyv);
                    lemma_assoc_index_at(prev, keyv, i as int);
                    assert forall|k2: Seq<char>| #[trigger] assoc_get(self@, k2) == if k2 == keyv {
                        Some(value@)
                    } else {
                        assoc_get(prev, k2)
                    } by {
                        lemma_assoc_get_update_one(prev, i as int, keyv, value@, k2);
                    }
                }
                return ;
            }
            proof {
                assert(self@[i as int].0 == self.entries@[i as int].0@);
            }
            i += 1;
        }
        let ghost prev = self@;
        let ghost keyv = key@;
        self.entries.push((key, value));
        proof {
            assert(self@ =~= prev.push((keyv, value@)));
            lemma_assoc_index_at(prev, keyv, prev.len() as int);
            assert forall|k2: Seq<char>| #[trigger] assoc_get(self@, k2) == if k2 == keyv {
                Some(value@)
            } else {
                assoc_get(prev, k2)
            } by {
                lemma_assoc_get_push_one(prev, keyv, value@, k2);
            }
        }
    }
}

/// All runners of a registry name a program: their command lists are
/// non-empty, as the planner requires when it splits them.
pub open spec fn runners_wf(rs: Seq<(Seq<char>, RunnerConfigV)>) -> bool {
    forall|i: int| 0 <= i < rs.len() ==> (#[trigger] rs[i]).1.command.len() > 0
}

pub proof fn lemma_assoc_get_wf(rs: Seq<(Seq<char>, RunnerConfigV)>, k: Seq<char>)
    requires
        runners_wf(rs),
        assoc_get(rs, k) is Some,
    ensures
        assoc_get(rs, k).unwrap().command.len() > 0,
    decreases rs.len(),
{
    if rs.len() > 0 {
        if rs[0].0 == k {
        } else {
            let t = rs.drop_first();
            assert forall|i: int| 0 <= i < t.len() implies (#[trigger] t[i]).1.command.len() > 0 by {
                assert(t[i] == rs[i + 1]);
            }
            lemma_assoc_get_wf(t, k);
        }
    }
}

/// A registered runner is one of the registry's entries.
pub proof fn lemma_assoc_get_is_entry(rs: Seq<(Seq<char>, RunnerConfigV)>, k: Seq<char>)
    requires
        assoc_get(rs, k) is Some,
    ensures
        exists|i: int|
            0 <= i < rs.len() && (#[trigger] rs[i]).1 == assoc_get(rs, k).unwrap(),
    decreases rs.len(),
{
    if rs.len() > 0 {
        if rs[0].0 == k {
            assert(rs[0].1 == assoc_get(rs, k).unwrap());
        } else {
            let t = rs.drop_first();
            lemma_assoc_get_is_entry(t, k);
            let wi = choose|i: int|
                0 <= i < t.len() && (#[trigger] t[i]).1 == assoc_get(t, k).unwrap();
            assert(rs[wi + 1].1 == assoc_get(rs, k).unwrap());
        }
    }
}

/// Top-level configuration: the defaults and the runner registry.
#[derive(Debug)]
pub struct Config {
    pub execution: Option<ExecutionConfig>,
    pub format: Option<FormatConfig>,
    pub runners: Option<Runners>,
    pub caption: Option<bool>,
}

impl Config {
    /// The built-in configuration: captions on, and the `sh`, `bash` and
    /// `console` runners registered. The `console` runner invokes this very
    /// tool in transcript-replay mode; `"$MDDUX"` stands for the running
    /// binary so that no absolute path is persisted in state files.
    pub fn system_default() -> (r: Config)
        ensures
            r.execution is None,
            r.format is None,
            r.caption == Some(true),
            r.runners matches Some(rs) && {
                &&& assoc_get(rs@, "sh"@) matches Some(c) && c.command == seq!["/bin/sh"@]
                    && c.name == Some("sh"@) && c.special_comment_prefix == Some("#"@)
                    && c.special_comment_suffix is None && c.exection is None && c.format is None
                &&& assoc_get(rs@, "bash"@) matches Some(c) && c.command == seq!["/bin/bash"@]
                    && c.name == Some("bash"@) && c.special_comment_prefix == Some("#"@)
                    && c.special_comment_suffix is None && c.exection is None && c.format is None
                &&& assoc_get(rs@, "console"@) matches Some(c) && c.command == seq![
                    "$MDDUX"@,
                    "run-console"@,
                ] && c.name == Some("console"@) && c.special_comment_prefix == Some("$ #"@)
                    && c.special_comment_suffix is None && c.exection is None && (
                c.format matches Some(f) && f == format_insert_spec(
                    format_config_none(),
                    "stdout-info"@,
                    "console"@,
                ))
                &&& forall|k: Seq<char>|
                    k != "sh"@ && k != "bash"@ && k != "console"@ ==> #[trigger] assoc_get(
                        rs@,
                        k,
                    ) is None
                &&& runners_wf(rs@)
            },
    {
        let mut runners = Runners::new();
        runners.insert("sh".to_owned(), RunnerConfig::plain("/bin/sh", "sh", "#"));
        let ghost rs1 = runners@;
        runners.insert("bash".to_owned(), RunnerConfig::plain("/bin/bash", "bash", "#"));
        let ghost rs2 = runners@;
        let mut console_format = FormatConfig::new();
        console_format.insert_with_str("stdout-info", "console");
        let mut command: Vec<String> = Vec::new();
        command.push("$MDDUX".to_owned());
        command.push("run-console".to_owned());
        let console = RunnerConfig {
            command,
            name: Some("console".to_owned()),
            special_comment_prefix: Some("$ #".to_owned()),
            special_comment_suffix: None,
            exection: None,
            format: Some(console_format),
        };
        proof {
            assert(console@.command =~= seq!["$MDDUX"@, "run-console"@]);
        }
        runners.insert("console".to_owned(), console);
        proof {
            reveal_strlit("sh");
            reveal_strlit("bash");
            reveal_strlit("console");
            assert("sh"@.len() == 2 && "bash"@.len() == 4 && "console"@.len() == 7);
            assert(assoc_get(runners@, "console"@) == Some(console@));
            assert forall|k: Seq<char>|
                k != "sh"@ && k != "bash"@ && k != "console"@ implies #[trigger] assoc_get(
                runners@,
                k,
            ) is None by {
                assert(assoc_get(Seq::<(Seq<char>, RunnerConfigV)>::empty(), k) is None);
            }
            assert forall|i: int| 0 <= i < runners@.len() implies (
            #[trigger] runners@[i]).1.command.len() > 0 by {
                if i < rs2.len() && runners@[i] == rs2[i] {
                    if i < rs1.len() && rs2[i] == rs1[i] {
                    }
                }
            }
        }
        Config { execution: None, format: None, runners: Some(runners), caption: Some(true) }
    }
}

} // verus!
