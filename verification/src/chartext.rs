//! Character classification and string helpers shared by the whole crate.
//!
//! Lines of a code block are handled as `&str` values whose views are
//! `Seq<char>`; everything here is specified against those views.
use vstd::prelude::*;

verus! {

/// The Unicode `White_Space` characters, the set that indentation counting
/// and blank-line detection go by.
pub open spec fn is_space_char(c: char) -> bool {
    let u = c as u32;
    u == 0x09 || u == 0x0A || u == 0x0B || u == 0x0C || u == 0x0D || u == 0x20 || u == 0x85
        || u == 0xA0 || u == 0x1680 || (0x2000 <= u && u <= 0x200A) || u == 0x2028 || u == 0x2029
        || u == 0x202F || u == 0x205F || u == 0x3000
}

pub fn is_space(c: char) -> (r: bool)
    ensures
        r == is_space_char(c),
{
    let u = c as u32;
    u == 0x09 || u == 0x0A || u == 0x0B || u == 0x0C || u == 0x0D || u == 0x20 || u == 0x85
        || u == 0xA0 || u == 0x1680 || (0x2000 <= u && u <= 0x200A) || u == 0x2028 || u == 0x2029
        || u == 0x202F || u == 0x205F || u == 0x3000
}

/// How many whitespace characters a line starts with.
pub open spec fn ws_count(l: Seq<char>) -> nat
    decreases l.len(),
{
    if l.len() > 0 && is_space_char(l[0]) {
        1 + ws_count(l.skip(1))
    } else {
        0
    }
}

pub proof fn lemma_ws_count_le_len(l: Seq<char>)
    ensures
        ws_count(l) <= l.len(),
    decreases l.len(),
{
    if l.len() > 0 && is_space_char(l[0]) {
        lemma_ws_count_le_len(l.skip(1));
    }
}

/// `ws_count` is exactly the first position that is not whitespace.
pub proof fn lemma_ws_count_is_prefix(l: Seq<char>, i: int)
    requires
        0 <= i <= l.len(),
        forall|j: int| 0 <= j < i ==> is_space_char(l[j]),
        i < l.len() ==> !is_space_char(l[i]),
    ensures
        ws_count(l) == i,
    decreases i,
{
    if i == 0 {
    } else {
        assert(is_space_char(l[0]));
        lemma_ws_count_is_prefix(l.skip(1), i - 1);
    }
}

/// Count the leading whitespace characters of a line.
pub fn leading_ws(line: &str) -> (n: usize)
    ensures
        n == ws_count(line@),
{
    let len = line.unicode_len();
    let mut i: usize = 0;
    while i < len && is_space(line.get_char(i))
        invariant
            0 <= i <= len,
            len == line@.len(),
            forall|j: int| 0 <= j < i ==> is_space_char(line@[j]),
        decreases len - i,
    {
        i = i + 1;
    }
    proof {
        lemma_ws_count_is_prefix(line@, i as int);
    }
    i
}

/// Number of characters before the first newline (the whole length when
/// there is none).
pub open spec fn nl_prefix_len(s: Seq<char>) -> nat
    decreases s.len(),
{
    if s.len() > 0 && s[0] != '\n' {
        1 + nl_prefix_len(s.skip(1))
    } else {
        0
    }
}

pub proof fn lemma_nl_prefix_len_is(s: Seq<char>, i: int)
    requires
        0 <= i <= s.len(),
        forall|j: int| 0 <= j < i ==> s[j] != '\n',
        i < s.len() ==> s[i] == '\n',
    ensures
        nl_prefix_len(s) == i,
    decreases i,
{
    if i == 0 {
    } else {
        lemma_nl_prefix_len_is(s.skip(1), i - 1);
    }
}

/// A line ending `"\r\n"` contributes no `'\r'` to the line's text.
pub open spec fn strip_cr(l: Seq<char>) -> Seq<char> {
    if l.len() > 0 && l[l.len() - 1] == '\r' {
        l.drop_last()
    } else {
        l
    }
}

/// The lines of a block's text: split at `'\n'`, with a `"\r\n"` ending
/// treated like `'\n'` alone, and no empty final line for text that ends
/// with a line ending.
pub open spec fn split_lines_spec(s: Seq<char>) -> Seq<Seq<char>>
    decreases s.len(),
{
    if s.len() == 0 {
        Seq::empty()
    } else if nl_prefix_len(s) < s.len() {
        seq![strip_cr(s.take(nl_prefix_len(s) as int))] + split_lines_spec(
            s.skip(nl_prefix_len(s) as int + 1),
        )
    } else {
        seq![s]
    }
}

/// Split a block's text into its lines.
pub fn split_lines<'a>(s: &'a str) -> (out: Vec<&'a str>)
    ensures
        out.deep_view() == split_lines_spec(s@),
{
    let n = s.unicode_len();
    let mut out: Vec<&'a str> = Vec::new();
    let mut start: usize = 0;
    let mut i: usize = 0;
    proof {
        assert(s@.skip(0) =~= s@);
        assert(out.deep_view() + split_lines_spec(s@) =~= split_lines_spec(s@));
    }
    while i < n
        invariant
            0 <= start <= i <= n,
            n == s@.len(),
            forall|j: int| start <= j < i ==> s@[j] != '\n',
            split_lines_spec(s@) == out.deep_view() + split_lines_spec(s@.skip(start as int)),
        decreases n - i,
    {
        if s.get_char(i) == '\n' {
            let line_end = if i > start && s.get_char(i - 1) == '\r' {
                i - 1
            } else {
                i
            };
            let line = s.substring_char(start, line_end);
            proof {
                let tail = s@.skip(start as int);
                lemma_nl_prefix_len_is(tail, i - start);
                assert(tail.take(i - start) =~= s@.subrange(start as int, i as int));
                assert(strip_cr(tail.take(i - start)) =~= line@);
                assert(tail.skip(i - start + 1) =~= s@.skip(i + 1));
                assert(split_lines_spec(tail) == seq![line@] + split_lines_spec(s@.skip(i + 1)));
            }
            let ghost old_dv = out.deep_view();
            out.push(line);
            proof {
                assert(out.deep_view() =~= old_dv + seq![line@]);
                assert(old_dv + seq![line@] + split_lines_spec(s@.skip(i + 1)) =~= old_dv + (
                seq![line@] + split_lines_spec(s@.skip(i + 1))));
            }
            start = i + 1;
        }
        i = i + 1;
    }
    proof {
        let tail = s@.skip(start as int);
        lemma_nl_prefix_len_is(tail, n - start);
    }
    if start < n {
        let line = s.substring_char(start, n);
        let ghost old_dv = out.deep_view();
        out.push(line);
        proof {
            let tail = s@.skip(start as int);
            assert(tail =~= line@);
            assert(split_lines_spec(tail) == seq![line@]);
            assert(out.deep_view() =~= old_dv + seq![line@]);
        }
    } else {
        proof {
            assert(s@.skip(start as int).len() == 0);
            assert(out.deep_view() =~= out.deep_view() + split_lines_spec(s@.skip(start as int)));
        }
    }
    out
}

/// The parts joined with the separator between neighbours.
pub open spec fn joined(parts: Seq<Seq<char>>, sep: Seq<char>) -> Seq<char>
    decreases parts.len(),
{
    if parts.len() == 0 {
        Seq::empty()
    } else if parts.len() == 1 {
        parts[0]
    } else {
        parts[0] + sep + joined(parts.skip(1), sep)
    }
}

pub proof fn lemma_joined_push(parts: Seq<Seq<char>>, sep: Seq<char>, x: Seq<char>)
    ensures
        parts.len() == 0 ==> joined(parts.push(x), sep) == x,
        parts.len() > 0 ==> joined(parts.push(x), sep) == joined(parts, sep) + sep + x,
    decreases parts.len(),
{
    if parts.len() == 0 {
        assert(joined(parts.push(x), sep) == parts.push(x)[0]);
        assert(parts.push(x)[0] == x);
    } else if parts.len() == 1 {
        assert(parts.push(x).skip(1) =~= seq![x]);
        assert(joined(seq![x], sep) == x);
        assert(joined(parts.push(x), sep) == parts[0] + sep + x);
    } else {
        lemma_joined_push(parts.skip(1), sep, x);
        assert(parts.push(x).skip(1) =~= parts.skip(1).push(x));
        assert(parts[0] + sep + (joined(parts.skip(1), sep) + sep + x) =~= (parts[0] + sep
            + joined(parts.skip(1), sep)) + sep + x);
    }
}

/// Join the parts with the separator between neighbours.
pub fn join_with(parts: &Vec<&str>, sep: &str) -> (r: String)
    ensures
        r@ == joined(parts.deep_view(), sep@),
{
    let ghost dv = parts.deep_view();
    let mut r = String::new();
    let mut i: usize = 0;
    while i < parts.len()
        invariant
            0 <= i <= parts.len(),
            dv == parts.deep_view(),
            dv.len() == parts.len(),
            r@ == joined(dv.take(i as int), sep@),
        decreases parts.len() - i,
    {
        if i > 0 {
            r.append(sep);
        }
        r.append(parts[i]);
        proof {
            lemma_joined_push(dv.take(i as int), sep@, dv[i as int]);
            assert(dv.take(i as int).push(dv[i as int]) =~= dv.take(i + 1));
        }
        i = i + 1;
    }
    proof {
        assert(dv.take(dv.len() as int) =~= dv);
    }
    r
}

/// Character-for-character string equality, specified over the views.
pub fn str_eq(a: &str, b: &str) -> (r: bool)
    ensures
        r == (a@ == b@),
{
    let alen = a.unicode_len();
    let blen = b.unicode_len();
    if alen != blen {
        return false;
    }
    let mut i: usize = 0;
    while i < alen
        invariant
            0 <= i <= alen,
            alen == a@.len(),
            alen == b@.len(),
            forall|j: int| 0 <= j < i ==> a@[j] == b@[j],
        decreases alen - i,
    {
        if a.get_char(i) != b.get_char(i) {
            return false;
        }
        i = i + 1;
    }
    proof {
        assert(a@ =~= b@);
    }
    true
}

} // verus!
