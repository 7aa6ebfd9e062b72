//! Character-level helpers shared by the directive parser, the planner and
//! the console transcript driver: equality, trimming, line splitting and
//! decimal formatting, all specified over `Seq<char>` views.

use vstd::prelude::*;

verus! {

/// Relies on `String::push`: appends one character at the end of the string.
#[verifier::external_body]
pub fn string_push(s: &mut String, c: char)
    ensures
        final(s)@ == old(s)@.push(c),
{
    s.push(c);
}

/// Equality of two string slices, by contents.
pub fn str_eq(a: &str, b: &str) -> (r: bool)
    ensures
        r == (a@ == b@),
{
    let alen = a.unicode_len();
    let blen = b.unicode_len();
    if alen != blen {
        assert(a@ != b@) by {
            assert(a@.len() != b@.len());
        }
        return false;
    }
    let mut i: usize = 0;
    while i < alen
        invariant
            alen == a@.len(),
            blen == b@.len(),
            alen == blen,
            i <= alen,
            forall|j: int| 0 <= j < i ==> a@[j] == b@[j],
        decreases alen - i,
    {
        if a.get_char(i) != b.get_char(i) {
            assert(a@ != b@) by {
                assert(a@[i as int] != b@[i as int]);
            }
            return false;
        }
        i += 1;
    }
    assert(a@ =~= b@);
    true
}

/// The Unicode `White_Space` characters, as trimmed by `str::trim`.
pub open spec fn is_ws_char(c: char) -> bool {
    c == ' ' || c == '\t' || c == '\n' || c == '\r' || c == '\u{b}' || c == '\u{c}'
        || c == '\u{85}' || c == '\u{a0}' || c == '\u{1680}' || ((c as u32) >= 0x2000 && (
    c as u32) <= 0x200a) || c == '\u{2028}' || c == '\u{2029}' || c == '\u{202f}' || c
        == '\u{205f}' || c == '\u{3000}'
}

pub fn is_ws(c: char) -> (r: bool)
    ensures
        r == is_ws_char(c),
{
    let u = c as u32;
    u == 0x20 || u == 0x9 || u == 0xa || u == 0xd || u == 0xb || u == 0xc || u == 0x85 || u == 0xa0
        || u == 0x1680 || (u >= 0x2000 && u <= 0x200a) || u == 0x2028 || u == 0x2029 || u == 0x202f
        || u == 0x205f || u == 0x3000
}

pub open spec fn trim_start_spec(s: Seq<char>) -> Seq<char>
    decreases s.len(),
{
    if s.len() > 0 && is_ws_char(s[0]) {
        trim_start_spec(s.drop_first())
    } else {
        s
    }
}

pub open spec fn trim_end_spec(s: Seq<char>) -> Seq<char>
    decreases s.len(),
{
    if s.len() > 0 && is_ws_char(s.last()) {
        trim_end_spec(s.drop_last())
    } else {
        s
    }
}

/// What `str::trim` returns: the string with leading and trailing
/// whitespace removed.
pub open spec fn trim_spec(s: Seq<char>) -> Seq<char> {
    trim_end_spec(trim_start_spec(s))
}

proof fn lemma_trim_start_at(s: Seq<char>, i: int)
    requires
        0 <= i <= s.len(),
        forall|k: int| 0 <= k < i ==> is_ws_char(s[k]),
        i < s.len() ==> !is_ws_char(s[i]),
    ensures
        trim_start_spec(s) == s.subrange(i, s.len() as int),
    decreases i,
{
    if i == 0 {
        assert(s.subrange(0, s.len() as int) =~= s);
    } else {
        let t = s.drop_first();
        lemma_trim_start_at(t, i - 1);
        assert(t.subrange(i - 1, t.len() as int) =~= s.subrange(i, s.len() as int));
    }
}

proof fn lemma_trim_end_at(s: Seq<char>, j: int)
    requires
        0 <= j <= s.len(),
        forall|k: int| j <= k < s.len() ==> is_ws_char(s[k]),
        j > 0 ==> !is_ws_char(s[j - 1]),
    ensures
        trim_end_spec(s) == s.subrange(0, j),
    decreases s.len() - j,
{
    if j == s.len() {
        assert(s.subrange(0, s.len() as int) =~= s);
    } else {
        let t = s.drop_last();
        lemma_trim_end_at(t, j);
        assert(t.subrange(0, j) =~= s.subrange(0, j));
    }
}

/// What `str::trim` returns, executably.
pub fn trim(s: &str) -> (r: &str)
    ensures
        r@ == trim_spec(s@),
{
    let len = s.unicode_len();
    let mut start: usize = 0;
    while start < len && is_ws(s.get_char(start))
        invariant
            len == s@.len(),
            start <= len,
            forall|k: int| 0 <= k < start ==> is_ws_char(s@[k]),
        decreases len - start,
    {
        start += 1;
    }
    proof {
        lemma_trim_start_at(s@, start as int);
    }
    let mut end: usize = len;
    while end > start && is_ws(s.get_char(end - 1))
        invariant
            len == s@.len(),
            start <= end <= len,
            forall|k: int| end <= k < len ==> is_ws_char(s@[k]),
        decreases end,
    {
        end -= 1;
    }
    let ghost mid = s@.subrange(start as int, len as int);
    proof {
        lemma_trim_end_at(mid, end - start);
        assert(mid.subrange(0, end - start) =~= s@.subrange(start as int, end as int));
    }
    s.substring_char(start, end)
}

/// Whether `p` is a prefix of `s`, as `str::starts_with` decides it.
pub fn starts_with(s: &str, p: &str) -> (r: bool)
    ensures
        r == (s@.len() >= p@.len() && s@.subrange(0, p@.len() as int) == p@),
{
    let slen = s.unicode_len();
    let plen = p.unicode_len();
    if slen < plen {
        return false;
    }
    let mut i: usize = 0;
    while i < plen
        invariant
            slen == s@.len(),
            plen == p@.len(),
            plen <= slen,
            i <= plen,
            forall|j: int| 0 <= j < i ==> s@[j] == p@[j],
        decreases plen - i,
    {
        if s.get_char(i) != p.get_char(i) {
            assert(s@.subrange(0, p@.len() as int)[i as int] != p@[i as int]);
            return false;
        }
        i += 1;
    }
    assert(s@.subrange(0, p@.len() as int) =~= p@);
    true
}

/// Whether `p` is a suffix of `s`, as `str::ends_with` decides it.
pub fn ends_with(s: &str, p: &str) -> (r: bool)
    ensures
        r == (s@.len() >= p@.len() && s@.subrange(s@.len() - p@.len(), s@.len() as int) == p@),
{
    let slen = s.unicode_len();
    let plen = p.unicode_len();
    if slen < plen {
        return false;
    }
    let off = slen - plen;
    let mut i: usize = 0;
    while i < plen
        invariant
            slen == s@.len(),
            plen == p@.len(),
            plen <= slen,
            off == slen - plen,
            i <= plen,
            forall|j: int| 0 <= j < i ==> s@[off + j] == p@[j],
        decreases plen - i,
    {
        if s.get_char(off + i) != p.get_char(i) {
            assert(s@.subrange(s@.len() - p@.len(), s@.len() as int)[i as int] != p@[i as int]);
            return false;
        }
        i += 1;
    }
    assert(s@.subrange(s@.len() - p@.len(), s@.len() as int) =~= p@);
    true
}

/// What `str::strip_prefix` returns.
pub fn strip_prefix<'a>(s: &'a str, p: &str) -> (r: Option<&'a str>)
    ensures
        match r {
            Some(t) => s@.len() >= p@.len() && s@.subrange(0, p@.len() as int) == p@ && t@
                == s@.subrange(p@.len() as int, s@.len() as int),
            None => !(s@.len() >= p@.len() && s@.subrange(0, p@.len() as int) == p@),
        },
{
    if starts_with(s, p) {
        Some(s.substring_char(p.unicode_len(), s.unicode_len()))
    } else {
        None
    }
}

/// What `str::strip_suffix` returns.
pub fn strip_suffix<'a>(s: &'a str, p: &str) -> (r: Option<&'a str>)
    ensures
        match r {
            Some(t) => s@.len() >= p@.len() && s@.subrange(s@.len() - p@.len(), s@.len() as int)
                == p@ && t@ == s@.subrange(0, s@.len() - p@.len()),
            None => !(s@.len() >= p@.len() && s@.subrange(s@.len() - p@.len(), s@.len() as int)
                == p@),
        },
{
    if ends_with(s, p) {
        Some(s.substring_char(0, s.unicode_len() - p.unicode_len()))
    } else {
        None
    }
}

/// Index of the first occurrence of `c` in `s`, or `s.len()` if there is
/// none.
pub open spec fn find_char_spec(s: Seq<char>, c: char) -> int
    decreases s.len(),
{
    if s.len() == 0 {
        0
    } else if s[0] == c {
        0
    } else {
        1 + find_char_spec(s.drop_first(), c)
    }
}

pub proof fn lemma_find_char_spec_bounds(s: Seq<char>, c: char)
    ensures
        0 <= find_char_spec(s, c) <= s.len(),
        forall|j: int| 0 <= j < find_char_spec(s, c) ==> s[j] != c,
        find_char_spec(s, c) < s.len() ==> s[find_char_spec(s, c)] == c,
    decreases s.len(),
{
    if s.len() > 0 && s[0] != c {
        let t = s.drop_first();
        lemma_find_char_spec_bounds(t, c);
        assert forall|j: int| 0 <= j < find_char_spec(s, c) implies s[j] != c by {
            if j > 0 {
                assert(s[j] == t[j - 1]);
            }
        }
        if find_char_spec(s, c) < s.len() {
            assert(s[find_char_spec(s, c)] == t[find_char_spec(t, c)]);
        }
    }
}

pub proof fn lemma_find_char_spec_at(s: Seq<char>, c: char, i: int)
    requires
        0 <= i <= s.len(),
        forall|j: int| 0 <= j < i ==> s[j] != c,
        i < s.len() ==> s[i] == c,
    ensures
        find_char_spec(s, c) == i,
    decreases i,
{
    if i > 0 {
        let t = s.drop_first();
        assert forall|j: int| 0 <= j < i - 1 implies t[j] != c by {
            assert(t[j] == s[j + 1]);
        }
        if i - 1 < t.len() {
            assert(t[i - 1] == s[i]);
        }
        lemma_find_char_spec_at(t, c, i - 1);
    }
}

/// Index of the first occurrence of `c` in `s`, if any.
pub fn find_char(s: &str, c: char) -> (r: Option<usize>)
    ensures
        match r {
            Some(i) => i < s@.len() && i as int == find_char_spec(s@, c),
            None => find_char_spec(s@, c) == s@.len(),
        },
{
    let len = s.unicode_len();
    let mut i: usize = 0;
    while i < len
        invariant
            len == s@.len(),
            i <= len,
            forall|j: int| 0 <= j < i ==> s@[j] != c,
        decreases len - i,
    {
        if s.get_char(i) == c {
            proof {
                lemma_find_char_spec_at(s@, c, i as int);
            }
            return Some(i);
        }
        i += 1;
    }
    proof {
        lemma_find_char_spec_at(s@, c, len as int);
    }
    None
}

/// Lower-cases one character as `char::to_ascii_lowercase` does: ASCII
/// capital letters move to their small forms, everything else is unchanged.
pub open spec fn ascii_lower_char(c: char) -> char {
    if 'A' <= c && c <= 'Z' {
        ((c as u8) + 0x20) as char
    } else {
        c
    }
}

pub fn ascii_lower(c: char) -> (r: char)
    ensures
        r == ascii_lower_char(c),
{
    if 'A' <= c && c <= 'Z' {
        (((c as u8) + 0x20) as char)
    } else {
        c
    }
}

/// What `str::to_ascii_lowercase` returns.
pub open spec fn ascii_lower_spec(s: Seq<char>) -> Seq<char> {
    s.map_values(|c: char| ascii_lower_char(c))
}

pub fn to_ascii_lowercase(s: &str) -> (r: String)
    ensures
        r@ == ascii_lower_spec(s@),
{
    let len = s.unicode_len();
    let mut r = String::new();
    let mut i: usize = 0;
    while i < len
        invariant
            len == s@.len(),
            i <= len,
            r@ == ascii_lower_spec(s@.take(i as int)),
        decreases len - i,
    {
        string_push(&mut r, ascii_lower(s.get_char(i)));
        i += 1;
        assert(r@ =~= ascii_lower_spec(s@.take(i as int))) by {
            assert(s@.take(i as int) =~= s@.take(i - 1).push(s@[i - 1]));
        }
    }
    proof {
        assert(s@.take(len as int) =~= s@);
    }
    r
}

/// What `str::eq_ignore_ascii_case` decides: equality after ASCII
/// lower-casing both sides.
pub fn eq_ignore_ascii_case(a: &str, b: &str) -> (r: bool)
    ensures
        r == (ascii_lower_spec(a@) == ascii_lower_spec(b@)),
{
    let alen = a.unicode_len();
    let blen = b.unicode_len();
    if alen != blen {
        assert(ascii_lower_spec(a@).len() != ascii_lower_spec(b@).len());
        return false;
    }
    let mut i: usize = 0;
    while i < alen
        invariant
            alen == a@.len(),
            blen == b@.len(),
            alen == blen,
            i <= alen,
            forall|j: int|
                0 <= j < i ==> ascii_lower_char(a@[j]) == ascii_lower_char(b@[j]),
        decreases alen - i,
    {
        if ascii_lower(a.get_char(i)) != ascii_lower(b.get_char(i)) {
            assert(ascii_lower_spec(a@)[i as int] != ascii_lower_spec(b@)[i as int]);
            return false;
        }
        i += 1;
    }
    assert(ascii_lower_spec(a@) =~= ascii_lower_spec(b@));
    true
}

/// Index of the first `'\n'` in `s`, or `s.len()` if there is none.
pub open spec fn find_nl(s: Seq<char>) -> int {
    find_char_spec(s, '\n')
}

pub proof fn lemma_find_nl_bounds(s: Seq<char>)
    ensures
        0 <= find_nl(s) <= s.len(),
        forall|j: int| 0 <= j < find_nl(s) ==> s[j] != '\n',
        find_nl(s) < s.len() ==> s[find_nl(s)] == '\n',
{
    lemma_find_char_spec_bounds(s, '\n');
}

proof fn lemma_find_nl_at(s: Seq<char>, i: int)
    requires
        0 <= i <= s.len(),
        forall|j: int| 0 <= j < i ==> s[j] != '\n',
        i < s.len() ==> s[i] == '\n',
    ensures
        find_nl(s) == i,
{
    lemma_find_char_spec_at(s, '\n', i);
}

/// One line as `str::lines` hands it out: a carriage return directly before
/// the line feed is dropped.
pub open spec fn strip_one_cr(s: Seq<char>) -> Seq<char> {
    if s.len() > 0 && s.last() == '\r' {
        s.drop_last()
    } else {
        s
    }
}

/// What `str::lines` yields, in order.
pub open spec fn lines_spec(s: Seq<char>) -> Seq<Seq<char>>
    decreases s.len(),
    via lines_spec_decreases
{
    if s.len() == 0 {
        Seq::empty()
    } else {
        let i = find_nl(s);
        if i == s.len() {
            seq![s]
        } else {
            seq![strip_one_cr(s.take(i))] + lines_spec(s.skip(i + 1))
        }
    }
}

#[via_fn]
proof fn lines_spec_decreases(s: Seq<char>) {
    lemma_find_nl_bounds(s);
}

/// What `str::lines` yields, as owned strings.
pub fn split_lines(s: &str) -> (r: Vec<String>)
    ensures
        r.deep_view() == lines_spec(s@),
{
    let len = s.unicode_len();
    let mut r: Vec<String> = Vec::new();
    let mut pos: usize = 0;
    proof {
        assert(s@.skip(0) =~= s@);
        assert(r.deep_view() =~= Seq::<Seq<char>>::empty());
        assert(r.deep_view() + lines_spec(s@) =~= lines_spec(s@));
    }
    while pos < len
        invariant
            len == s@.len(),
            pos <= len,
            lines_spec(s@) == r.deep_view() + lines_spec(s@.skip(pos as int)),
        decreases len - pos,
    {
        let ghost rest = s@.skip(pos as int);
        let ghost prev_deep = r.deep_view();
        let mut i: usize = pos;
        while i < len && s.get_char(i) != '\n'
            invariant
                len == s@.len(),
                pos <= i <= len,
                forall|j: int| pos <= j < i ==> s@[j] != '\n',
        decreases len - i,
    {
            i += 1;
        }
        proof {
            assert forall|j: int| 0 <= j < i - pos implies rest[j] != '\n' by {
                assert(rest[j] == s@[pos + j]);
            }
            if i < len {
                assert(rest[i - pos] == s@[i as int]);
            }
            lemma_find_nl_at(rest, i - pos);
            assert(rest.len() > 0);
        }
        let mut end: usize = i;
        if i < len && end > pos && s.get_char(end - 1) == '\r' {
            end -= 1;
        }
        let line = s.substring_char(pos, end);
        let ghost prev_pos = pos as int;
        r.push(line.to_owned());
        proof {
            assert(r.deep_view() =~= prev_deep.push(line@));
        }
        if i < len {
            pos = i + 1;
            proof {
                assert(rest.take(i - prev_pos) =~= s@.subrange(prev_pos, i as int));
                if i > prev_pos && s@[i - 1] == '\r' {
                    assert(rest.take(i - prev_pos).last() == '\r');
                    assert(strip_one_cr(rest.take(i - prev_pos)) =~= s@.subrange(
                        prev_pos,
                        end as int,
                    ));
                } else {
                    assert(strip_one_cr(rest.take(i - prev_pos)) =~= s@.subrange(
                        prev_pos,
                        end as int,
                    ));
                }
                assert(line@ == strip_one_cr(rest.take(i - prev_pos)));
                assert(find_nl(rest) == i - prev_pos);
                assert(lines_spec(rest) == seq![strip_one_cr(rest.take(i - prev_pos))]
                    + lines_spec(rest.skip(i - prev_pos + 1)));
                assert(rest.skip(i - prev_pos + 1) =~= s@.skip(pos as int));
                assert(prev_deep.push(line@) + lines_spec(s@.skip(pos as int)) =~= prev_deep + (
                seq![line@] + lines_spec(s@.skip(pos as int))));
            }
        } else {
            pos = len;
            proof {
                assert(find_nl(rest) == rest.len());
                assert(lines_spec(rest) == seq![rest]);
                assert(rest.take(i - prev_pos) =~= rest);
                assert(line@ == s@.subrange(prev_pos, end as int));
                assert(line@ =~= rest);
                assert(s@.skip(pos as int).len() == 0);
                assert(lines_spec(s@.skip(pos as int)) =~= Seq::<Seq<char>>::empty());
                assert(prev_deep.push(line@) + lines_spec(s@.skip(pos as int)) =~= prev_deep
                    + seq![rest]);
            }
        }
    }
    proof {
        assert(s@.skip(pos as int).len() == 0);
        assert(lines_spec(s@.skip(pos as int)) =~= Seq::<Seq<char>>::empty());
        assert(r.deep_view() + lines_spec(s@.skip(pos as int)) =~= r.deep_view());
    }
    r
}

/// The sequences of `v`, joined with separator `sep` between them.
pub open spec fn join_spec(v: Seq<Seq<char>>, sep: Seq<char>) -> Seq<char>
    decreases v.len(),
{
    if v.len() == 0 {
        Seq::empty()
    } else if v.len() == 1 {
        v[0]
    } else {
        v[0] + sep + join_spec(v.drop_first(), sep)
    }
}

/// What `[String]::join` returns.
pub fn join_strings(v: &Vec<String>, sep: &str) -> (r: String)
    ensures
        r@ == join_spec(v.deep_view(), sep@),
{
    let mut r = String::new();
    let mut i: usize = 0;
    proof {
        lemma_join_take(v.deep_view(), sep@, 0);
    }
    while i < v.len()
        invariant
            i <= v.len(),
            r@ == join_take(v.deep_view(), sep@, i as int),
        decreases v.len() - i,
    {
        if i > 0 {
            r.append(sep);
        }
        r.append(v[i].as_str());
        i += 1;
        proof {
            lemma_join_take(v.deep_view(), sep@, i as int);
        }
    }
    proof {
        lemma_join_take_all(v.deep_view(), sep@);
    }
    r
}

/// The join of the first `i` elements.
pub open spec fn join_take(v: Seq<Seq<char>>, sep: Seq<char>, i: int) -> Seq<char>
    decreases i,
{
    if i <= 0 {
        Seq::empty()
    } else if i == 1 {
        v[0]
    } else {
        join_take(v, sep, i - 1) + sep + v[i - 1]
    }
}

proof fn lemma_join_take(v: Seq<Seq<char>>, sep: Seq<char>, i: int)
    requires
        0 <= i <= v.len(),
    ensures
        i < v.len() ==> join_take(v, sep, i + 1) == if i == 0 {
            v[0]
        } else {
            join_take(v, sep, i) + sep + v[i]
        },
{
}

proof fn lemma_join_take_all(v: Seq<Seq<char>>, sep: Seq<char>)
    ensures
        join_take(v, sep, v.len() as int) == join_spec(v, sep),
    decreases v.len(),
{
    if v.len() > 1 {
        lemma_join_take_all(v.drop_first(), sep);
        lemma_join_take_shift(v, sep, v.len() as int);
    }
}

proof fn lemma_join_take_shift(v: Seq<Seq<char>>, sep: Seq<char>, i: int)
    requires
        v.len() >= 1,
        1 <= i <= v.len(),
    ensures
        join_take(v, sep, i) == if i == 1 {
            v[0]
        } else {
            v[0] + sep + join_take(v.drop_first(), sep, i - 1)
        },
    decreases i,
{
    if i > 1 {
        lemma_join_take_shift(v, sep, i - 1);
        if i - 1 == 1 {
            assert(join_take(v, sep, i) == join_take(v, sep, i - 1) + sep + v[i - 1]);
            assert(v.drop_first()[0] == v[1]);
        } else {
            assert(v.drop_first()[i - 2] == v[i - 1]);
            assert((v[0] + sep + join_take(v.drop_first(), sep, i - 2)) + sep + v[i - 1] =~= v[0]
                + sep + (join_take(v.drop_first(), sep, i - 2) + sep + v.drop_first()[i - 2]));
        }
    }
}

/// The decimal digit characters.
pub open spec fn dec_digit(d: int) -> char {
    if d == 0 {
        '0'
    } else if d == 1 {
        '1'
    } else if d == 2 {
        '2'
    } else if d == 3 {
        '3'
    } else if d == 4 {
        '4'
    } else if d == 5 {
        '5'
    } else if d == 6 {
        '6'
    } else if d == 7 {
        '7'
    } else if d == 8 {
        '8'
    } else {
        '9'
    }
}

/// The decimal digits of a non-negative number, most significant first.
pub open spec fn dec_nat_spec(n: int) -> Seq<char>
    decreases n,
{
    if n < 10 {
        seq![dec_digit(n)]
    } else {
        dec_nat_spec(n / 10).push(dec_digit(n % 10))
    }
}

/// What formatting an `i32` in decimal produces.
pub open spec fn dec_i32_spec(n: int) -> Seq<char> {
    if n < 0 {
        seq!['-'] + dec_nat_spec(-n)
    } else {
        dec_nat_spec(n)
    }
}

fn dec_digit_exec(d: u32) -> (c: char)
    requires
        d < 10,
    ensures
        c == dec_digit(d as int),
{
    if d == 0 {
        '0'
    } else if d == 1 {
        '1'
    } else if d == 2 {
        '2'
    } else if d == 3 {
        '3'
    } else if d == 4 {
        '4'
    } else if d == 5 {
        '5'
    } else if d == 6 {
        '6'
    } else if d == 7 {
        '7'
    } else if d == 8 {
        '8'
    } else {
        '9'
    }
}

fn u32_digits(n: u32) -> (r: Vec<char>)
    ensures
        r@.reverse() == dec_nat_spec(n as int),
{
    let mut digits: Vec<char> = Vec::new();
    let d0 = n % 10;
    digits.push(dec_digit_exec(d0));
    let mut cur: u32 = n / 10;
    proof {
        if cur == 0 {
            assert(dec_nat_spec(n as int) == seq![dec_digit(n as int)]);
            assert(digits@.reverse() =~= seq![dec_digit(n as int)]);
        } else {
            assert(dec_nat_spec(n as int) == dec_nat_spec(cur as int).push(dec_digit(
                d0 as int,
            )));
            assert(dec_nat_spec(cur as int).push(dec_digit(d0 as int)) =~= dec_nat_spec(
                cur as int,
            ) + digits@.reverse());
        }
    }
    while cur > 0
        invariant
            digits@.len() > 0,
            if cur > 0 {
                dec_nat_spec(n as int) == dec_nat_spec(cur as int) + digits@.reverse()
            } else {
                dec_nat_spec(n as int) == digits@.reverse()
            },
        decreases cur,
    {
        let ghost old_digits = digits@;
        let ghost old_cur = cur;
        let d = cur % 10;
        digits.push(dec_digit_exec(d));
        cur = cur / 10;
        proof {
            assert(digits@.reverse() =~= seq![dec_digit(d as int)] + old_digits.reverse());
            if cur == 0 {
                assert(dec_nat_spec(old_cur as int) == seq![dec_digit(old_cur as int)]);
                assert(dec_nat_spec(old_cur as int) + old_digits.reverse() =~= digits@.reverse());
            } else {
                assert(dec_nat_spec(old_cur as int) == dec_nat_spec(cur as int).push(
                    dec_digit(d as int),
                ));
                assert(dec_nat_spec(cur as int).push(dec_digit(d as int)) + old_digits.reverse()
                    =~= dec_nat_spec(cur as int) + digits@.reverse());
            }
        }
    }
    digits
}

/// Formats `n` in decimal, as `format!("{}", n)` would.
pub fn i32_to_string(n: i32) -> (r: String)
    ensures
        r@ == dec_i32_spec(n as int),
{
    let neg = n < 0;
    let mag: u32 = if n < 0 {
        (-(n as i64)) as u32
    } else {
        n as u32
    };
    let digits = u32_digits(mag);
    let mut r = String::new();
    if neg {
        string_push(&mut r, '-');
    }
    let mut i: usize = digits.len();
    while i > 0
        invariant
            i <= digits.len(),
            r@ == (if neg {
                seq!['-']
            } else {
                Seq::<char>::empty()
            }) + digits@.reverse().take(digits.len() - i),
        decreases i,
    {
        i -= 1;
        string_push(&mut r, digits[i]);
        proof {
            assert(digits@.reverse()[digits@.len() - 1 - i] == digits@[i as int]);
            assert(r@ =~= (if neg {
                seq!['-']
            } else {
                Seq::<char>::empty()
            }) + digits@.reverse().take(digits.len() - i));
        }
    }
    proof {
        assert(digits@.reverse().take(digits@.len() as int) =~= digits@.reverse());
        if neg {
            assert(r@ =~= seq!['-'] + dec_nat_spec(-(n as int)));
        } else {
            assert(r@ =~= dec_nat_spec(n as int));
        }
    }
    r
}

} // verus!
