//! The console transcript driver's logic: parsing a transcript into
//! command/expected-output entries, normalizing captured shell output, and
//! deciding expectation mismatches. Driving the interactive shell itself
//! is I/O and stays outside the library.

use vstd::prelude::*;

use crate::text::{join_spec, join_strings, string_push};

verus! {

/// One transcript entry: a command (possibly assembled from continuation
/// lines) and the output expected of it, if any.
#[derive(Debug)]
pub struct Entry {
    pub command: String,
    pub expected: Option<String>,
}

/// The ghost image of an entry.
pub struct EntryV {
    pub command: Seq<char>,
    pub expected: Option<Seq<char>>,
}

impl View for Entry {
    type V = EntryV;

    open spec fn view(&self) -> EntryV {
        EntryV { command: self.command@, expected: crate::config::view_opt_str(self.expected) }
    }
}

/// A parsed transcript.
#[derive(Debug)]
pub struct Document {
    pub entries: Vec<Entry>,
}

/// The parser's accumulator: finished entries, the lines of the command
/// and expected output being collected, and whether the command is being
/// continued by a trailing backslash.
pub struct ConsoleFoldV {
    pub entries: Seq<EntryV>,
    pub command_lines: Seq<Seq<char>>,
    pub output_lines: Seq<Seq<char>>,
    pub cmd_continues: bool,
}

/// Closes the entry being collected, if any: the command lines joined by
/// newlines, the output lines joined by newlines with one trailing
/// newline, or no expectation at all when no output line followed.
pub open spec fn console_push_entry(st: ConsoleFoldV) -> ConsoleFoldV {
    if st.command_lines.len() > 0 {
        let expected: Option<Seq<char>> = if st.output_lines.len() == 0 {
            None
        } else {
            Some(join_spec(st.output_lines, seq!['\n']) + seq!['\n'])
        };
        ConsoleFoldV {
            entries: st.entries.push(
                EntryV { command: join_spec(st.command_lines, seq!['\n']), expected },
            ),
            command_lines: Seq::empty(),
            output_lines: Seq::empty(),
            cmd_continues: st.cmd_continues,
        }
    } else {
        ConsoleFoldV {
            command_lines: Seq::empty(),
            output_lines: Seq::empty(),
            ..st
        }
    }
}

/// Folds one transcript line into the accumulator: a `$` line (outside a
/// continuation) starts a new entry, a trailing backslash continues the
/// command, and any other line belongs to the expected output.
pub open spec fn console_step(st: ConsoleFoldV, l: Seq<char>) -> ConsoleFoldV {
    let cmd_starts = !st.cmd_continues && l.len() > 0 && l[0] == '$';
    let is_cmd = cmd_starts || st.cmd_continues;
    if is_cmd {
        let base = if !st.cmd_continues {
            console_push_entry(st)
        } else {
            st
        };
        let start: int = if cmd_starts {
            1
        } else {
            0
        };
        let continues = l.len() > 0 && l.last() == '\\';
        let end: int = if continues {
            l.len() - 1
        } else {
            l.len() as int
        };
        ConsoleFoldV {
            command_lines: base.command_lines.push(l.subrange(start, end)),
            cmd_continues: continues,
            ..base
        }
    } else {
        ConsoleFoldV { output_lines: st.output_lines.push(l), ..st }
    }
}

/// The accumulator after folding every line in order.
pub open spec fn console_fold(lines: Seq<Seq<char>>) -> ConsoleFoldV
    decreases lines.len(),
{
    if lines.len() == 0 {
        ConsoleFoldV {
            entries: Seq::empty(),
            command_lines: Seq::empty(),
            output_lines: Seq::empty(),
            cmd_continues: false,
        }
    } else {
        console_step(console_fold(lines.drop_last()), lines.last())
    }
}

/// The entries of a whole transcript: the fold of its lines, with the
/// last entry closed.
pub open spec fn console_entries_spec(lines: Seq<Seq<char>>) -> Seq<EntryV> {
    console_push_entry(console_fold(lines)).entries
}

fn exec_push_entry(
    entries: &mut Vec<Entry>,
    command_lines: &mut Vec<String>,
    output_lines: &mut Vec<String>,
    Ghost(st): Ghost<ConsoleFoldV>,
)
    requires
        old(entries)@.map_values(|e: Entry| e@) == st.entries,
        old(command_lines).deep_view() == st.command_lines,
        old(output_lines).deep_view() == st.output_lines,
    ensures
        final(entries)@.map_values(|e: Entry| e@) == console_push_entry(st).entries,
        final(command_lines).deep_view() == console_push_entry(st).command_lines,
        final(output_lines).deep_view() == console_push_entry(st).output_lines,
{
    let ghost prev = entries@.map_values(|e: Entry| e@);
    if command_lines.len() > 0 {
        let expected: Option<String> = if output_lines.len() == 0 {
            None
        } else {
            let mut joined = join_strings(output_lines, "\n");
            string_push(&mut joined, '\n');
            Some(joined)
        };
        let command = join_strings(command_lines, "\n");
        proof {
            reveal_strlit("\n");
        }
        let e = Entry { command, expected };
        entries.push(e);
        proof {
            assert("\n"@ =~= seq!['\n']);
            assert(entries@.map_values(|e2: Entry| e2@) =~= prev.push(e@));
            assert(e@.command == join_spec(st.command_lines, seq!['\n']));
            match e@.expected {
                Some(x) => {
                    assert(x == join_spec(st.output_lines, seq!['\n']) + seq!['\n']);
                },
                None => {},
            }
            assert(entries@.map_values(|e2: Entry| e2@) =~= console_push_entry(st).entries);
        }
    } else {
        proof {
            assert(entries@.map_values(|e2: Entry| e2@) =~= console_push_entry(st).entries);
        }
    }
    command_lines.clear();
    output_lines.clear();
    proof {
        assert(command_lines.deep_view() =~= Seq::<Seq<char>>::empty());
        assert(output_lines.deep_view() =~= Seq::<Seq<char>>::empty());
    }
}

/// Parses transcript lines into entries, as the grammar reads: `$` begins
/// a command, a trailing backslash continues it, and the following lines
/// up to the next command are its expected output.
pub fn parse_lines_as_document(lines: &Vec<String>) -> (r: Document)
    ensures
        r.entries@.map_values(|e: Entry| e@) == console_entries_spec(lines.deep_view()),
{
    let mut entries: Vec<Entry> = Vec::new();
    let mut command_lines: Vec<String> = Vec::new();
    let mut output_lines: Vec<String> = Vec::new();
    let mut cmd_continues = false;
    let mut i: usize = 0;
    proof {
        assert(lines.deep_view().take(0) =~= Seq::<Seq<char>>::empty());
        assert(entries@.map_values(|e: Entry| e@) =~= Seq::<EntryV>::empty());
        assert(command_lines.deep_view() =~= Seq::<Seq<char>>::empty());
        assert(output_lines.deep_view() =~= Seq::<Seq<char>>::empty());
    }
    while i < lines.len()
        invariant
            i <= lines.len(),
            entries@.map_values(|e: Entry| e@) == console_fold(
                lines.deep_view().take(i as int),
            ).entries,
            command_lines.deep_view() == console_fold(
                lines.deep_view().take(i as int),
            ).command_lines,
            output_lines.deep_view() == console_fold(
                lines.deep_view().take(i as int),
            ).output_lines,
            cmd_continues == console_fold(lines.deep_view().take(i as int)).cmd_continues,
        decreases lines.len() - i,
    {
        let ghost gl = lines.deep_view();
        let ghost st = console_fold(gl.take(i as int));
        proof {
            assert(gl.take(i as int + 1).drop_last() =~= gl.take(i as int));
            assert(gl.take(i as int + 1).last() == gl[i as int]);
        }
        let l: &str = lines[i].as_str();
        proof {
            assert(l@ == gl[i as int]);
        }
        let llen = l.unicode_len();
        let cmd_starts = !cmd_continues && llen > 0 && l.get_char(0) == '$';
        let is_cmd = cmd_starts || cmd_continues;
        if is_cmd {
            if !cmd_continues {
                exec_push_entry(&mut entries, &mut command_lines, &mut output_lines, Ghost(st));
            }
            let start: usize = if cmd_starts {
                1
            } else {
                0
            };
            let continues = llen > 0 && l.get_char(llen - 1) == '\\';
            cmd_continues = continues;
            let end: usize = if continues {
                llen - 1
            } else {
                llen
            };
            let command_line = l.substring_char(start, end);
            let ghost prev_cmds = command_lines.deep_view();
            command_lines.push(command_line.to_owned());
            proof {
                assert(command_lines.deep_view() =~= prev_cmds.push(command_line@));
            }
        } else {
            let ghost prev_outs = output_lines.deep_view();
            output_lines.push(l.to_owned());
            proof {
                assert(output_lines.deep_view() =~= prev_outs.push(l@));
            }
        }
        i += 1;
    }
    proof {
        assert(lines.deep_view().take(lines@.len() as int) =~= lines.deep_view());
    }
    let ghost st_final = console_fold(lines.deep_view());
    exec_push_entry(&mut entries, &mut command_lines, &mut output_lines, Ghost(st_final));
    Document { entries }
}

/// Whether a character can stand in the parameter part of a colour
/// escape: a digit or a semicolon.
pub open spec fn is_param_char(c: char) -> bool {
    ('0' <= c && c <= '9') || c == ';'
}

/// The first index at or after `j` that is not a parameter character.
pub open spec fn scan_params(s: Seq<char>, j: int) -> int
    decreases s.len() - j,
{
    if j < s.len() && is_param_char(s[j]) {
        scan_params(s, j + 1)
    } else {
        j
    }
}

pub proof fn lemma_scan_params_bounds(s: Seq<char>, j: int)
    requires
        0 <= j <= s.len(),
    ensures
        j <= scan_params(s, j) <= s.len(),
        forall|t: int| j <= t < scan_params(s, j) ==> is_param_char(s[t]),
        scan_params(s, j) < s.len() ==> !is_param_char(s[scan_params(s, j)]),
    decreases s.len() - j,
{
    if j < s.len() && is_param_char(s[j]) {
        lemma_scan_params_bounds(s, j + 1);
    }
}

/// The text with ANSI colour escapes (`ESC [ <params> m`) removed, as the
/// driver's colour-stripping replacement does.
pub open spec fn strip_ansi_spec(s: Seq<char>) -> Seq<char>
    decreases s.len(),
    via strip_ansi_decreases
{
    if s.len() == 0 {
        Seq::empty()
    } else if s.len() >= 2 && s[0] == '\u{1b}' && s[1] == '[' && {
        let j = scan_params(s, 2);
        j < s.len() && s[j] == 'm'
    } {
        strip_ansi_spec(s.skip(scan_params(s, 2) + 1))
    } else {
        seq![s[0]] + strip_ansi_spec(s.drop_first())
    }
}

#[via_fn]
proof fn strip_ansi_decreases(s: Seq<char>) {
    if s.len() >= 2 && s[0] == '\u{1b}' && s[1] == '[' {
        lemma_scan_params_bounds(s, 2);
    }
}

/// The text with every carriage return removed.
pub open spec fn strip_cr_spec(s: Seq<char>) -> Seq<char>
    decreases s.len(),
{
    if s.len() == 0 {
        Seq::empty()
    } else {
        strip_cr_spec(s.drop_last()) + (if s.last() == '\r' {
            Seq::<char>::empty()
        } else {
            seq![s.last()]
        })
    }
}

fn is_param(c: char) -> (r: bool)
    ensures
        r == is_param_char(c),
{
    ('0' <= c && c <= '9') || c == ';'
}

/// Removes ANSI colour escapes.
fn strip_ansi_colors(s: &str) -> (r: String)
    ensures
        r@ == strip_ansi_spec(s@),
{
    let len = s.unicode_len();
    let mut out = String::new();
    let mut i: usize = 0;
    proof {
        assert(s@.skip(0) =~= s@);
        assert(out@ + strip_ansi_spec(s@) =~= strip_ansi_spec(s@));
    }
    while i < len
        invariant
            len == s@.len(),
            i <= len,
            strip_ansi_spec(s@) == out@ + strip_ansi_spec(s@.skip(i as int)),
        decreases len - i,
    {
        let ghost rest = s@.skip(i as int);
        let c = s.get_char(i);
        proof {
            assert(rest[0] == s@[i as int]);
        }
        if c == '\u{1b}' && i + 1 < len && s.get_char(i + 1) == '[' {
            let mut j: usize = i + 2;
            while j < len && is_param(s.get_char(j))
                invariant
                    len == s@.len(),
                    i + 2 <= j <= len,
                    forall|t: int| i + 2 <= t < j ==> is_param_char(s@[t]),
                decreases len - j,
            {
                j += 1;
            }
            proof {
                assert forall|t: int| 2 <= t < j - i implies is_param_char(rest[t]) by {
                    assert(rest[t] == s@[i + t]);
                }
                if j < len {
                    assert(rest[j - i] == s@[j as int]);
                }
                lemma_scan_params_bounds(rest, 2);
                assert(scan_params(rest, 2) == j - i) by {
                    lemma_scan_params_at(rest, 2, j - i);
                }
            }
            if j < len && s.get_char(j) == 'm' {
                proof {
                    assert(rest.len() >= 2 && rest[0] == '\u{1b}' && rest[1] == '[');
                    assert(rest[j - i] == 'm');
                    assert(strip_ansi_spec(rest) == strip_ansi_spec(rest.skip(j - i + 1)));
                    assert(rest.skip(j - i + 1) =~= s@.skip(j + 1));
                }
                i = j + 1;
            } else {
                string_push(&mut out, c);
                proof {
                    assert(strip_ansi_spec(rest) == seq![rest[0]] + strip_ansi_spec(
                        rest.drop_first(),
                    ));
                    assert(rest.drop_first() =~= s@.skip(i as int + 1));
                    assert(out@ + strip_ansi_spec(s@.skip(i as int + 1)) =~= (out@.drop_last())
                        + strip_ansi_spec(rest));
                }
                i += 1;
            }
        } else {
            string_push(&mut out, c);
            proof {
                if rest.len() >= 2 && rest[0] == '\u{1b}' && rest[1] == '[' {
                    assert(rest[1] == s@[i as int + 1]);
                }
                assert(strip_ansi_spec(rest) == seq![rest[0]] + strip_ansi_spec(
                    rest.drop_first(),
                ));
                assert(rest.drop_first() =~= s@.skip(i as int + 1));
                assert(out@ + strip_ansi_spec(s@.skip(i as int + 1)) =~= (out@.drop_last())
                    + strip_ansi_spec(rest));
            }
            i += 1;
        }
    }
    proof {
        assert(s@.skip(len as int).len() == 0);
        assert(strip_ansi_spec(s@.skip(len as int)) =~= Seq::<char>::empty());
        assert(out@ + strip_ansi_spec(s@.skip(len as int)) =~= out@);
    }
    out
}

proof fn lemma_scan_params_at(s: Seq<char>, j: int, k: int)
    requires
        0 <= j <= k <= s.len(),
        forall|t: int| j <= t < k ==> is_param_char(s[t]),
        k < s.len() ==> !is_param_char(s[k]),
    ensures
        scan_params(s, j) == k,
    decreases k - j,
{
    if j < k {
        lemma_scan_params_at(s, j + 1, k);
    }
}

/// Removes every carriage return.
fn strip_cr(s: &str) -> (r: String)
    ensures
        r@ == strip_cr_spec(s@),
{
    let len = s.unicode_len();
    let mut out = String::new();
    let mut i: usize = 0;
    proof {
        assert(s@.take(0) =~= Seq::<char>::empty());
    }
    while i < len
        invariant
            len == s@.len(),
            i <= len,
            out@ == strip_cr_spec(s@.take(i as int)),
        decreases len - i,
    {
        let c = s.get_char(i);
        if c != '\r' {
            string_push(&mut out, c);
        }
        i += 1;
        proof {
            assert(s@.take(i as int).drop_last() =~= s@.take(i as int - 1));
            assert(s@.take(i as int).last() == s@[i as int - 1]);
            if c == '\r' {
                assert(out@ =~= strip_cr_spec(s@.take(i as int)));
            } else {
                assert(out@ =~= strip_cr_spec(s@.take(i as int)));
            }
        }
    }
    proof {
        assert(s@.take(len as int) =~= s@);
    }
    out
}

/// What captured shell output looks like once normalized: colour escapes
/// stripped, then carriage returns removed.
pub open spec fn normalize_spec(s: Seq<char>) -> Seq<char> {
    strip_cr_spec(strip_ansi_spec(s))
}

/// Normalizes captured shell output for comparison and echoing.
pub fn normalize_console_output(s: &str) -> (r: String)
    ensures
        r@ == normalize_spec(s@),
{
    let stripped = strip_ansi_colors(s);
    strip_cr(stripped.as_str())
}

/// The echo of one entry's command: `$`, the command, and a newline.
pub fn entry_echo(entry: &Entry) -> (r: String)
    ensures
        r@ == seq!['$'] + entry.command@ + seq!['\n'],
{
    let mut s = String::new();
    string_push(&mut s, '$');
    s.append(entry.command.as_str());
    string_push(&mut s, '\n');
    proof {
        assert(s@ =~= seq!['$'] + entry.command@ + seq!['\n']);
    }
    s
}

/// Replays one entry against the output the shell actually produced:
/// returns the normalized actual output to echo, and whether it missed a
/// stated expectation. A mismatch is a warning, never a failure.
pub fn replay_output(entry: &Entry, raw_actual: &str) -> (r: (String, bool))
    ensures
        r.0@ == normalize_spec(raw_actual@),
        r.1 == (entry.expected matches Some(e) && e@ != normalize_spec(raw_actual@)),
{
    let actual = normalize_console_output(raw_actual);
    let mismatch = match &entry.expected {
        Some(e) => !crate::text::str_eq(e.as_str(), actual.as_str()),
        None => false,
    };
    (actual, mismatch)
}

} // verus!
