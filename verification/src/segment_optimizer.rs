//! Iterative normalization of a code block: dedent, blank-line trimming and
//! one-shot path detection, repeated to a fixed point.
use crate::chartext::{leading_ws, split_lines, split_lines_spec, str_eq, ws_count};
use crate::filetype::{classify_opt, FileType};
use crate::parse::RawCodeBlock;
use crate::path_detection::{detect_path, detect_spec, lemma_detect_some_range};
use vstd::prelude::*;

verus! {

/// The mathematical state of normalization: the lines of the block, the
/// classified type, and the path found so far, if any.
#[verifier::ext_equal]
pub struct NormalizationState {
    pub lines: Seq<Seq<char>>,
    pub file_type: FileType,
    pub path: Option<Seq<char>>,
}

/// Total leading whitespace over all lines; the measure that dedent shrinks.
pub open spec fn ws_total(lines: Seq<Seq<char>>) -> nat
    decreases lines.len(),
{
    if lines.len() == 0 {
        0
    } else {
        ws_count(lines[0]) + ws_total(lines.skip(1))
    }
}

/// The minimum leading-whitespace count over the non-empty lines, if any.
pub open spec fn min_indent_opt(lines: Seq<Seq<char>>) -> Option<nat>
    decreases lines.len(),
{
    if lines.len() == 0 {
        None
    } else {
        let rest = min_indent_opt(lines.skip(1));
        if lines[0].len() == 0 {
            rest
        } else {
            let c = ws_count(lines[0]);
            match rest {
                None => Some(c),
                Some(r) => Some(if c <= r {
                    c
                } else {
                    r
                }),
            }
        }
    }
}

/// The minimum leading-whitespace count over non-empty lines, zero when
/// every line is empty or there are none.
pub open spec fn min_indent(lines: Seq<Seq<char>>) -> nat {
    match min_indent_opt(lines) {
        None => 0,
        Some(m) => m,
    }
}

/// Strip up to `amount` leading whitespace characters from one line.
pub open spec fn trim_line(l: Seq<char>, amount: nat) -> Seq<char> {
    if amount <= ws_count(l) {
        l.skip(amount as int)
    } else {
        l.skip(ws_count(l) as int)
    }
}

/// Strip the common indentation from every line.
pub open spec fn dedent(lines: Seq<Seq<char>>) -> Seq<Seq<char>> {
    Seq::new(lines.len(), |i: int| trim_line(lines[i], min_indent(lines)))
}

/// Drop the maximal run of empty lines at the start.
pub open spec fn drop_leading(lines: Seq<Seq<char>>) -> Seq<Seq<char>>
    decreases lines.len(),
{
    if lines.len() > 0 && lines[0].len() == 0 {
        drop_leading(lines.skip(1))
    } else {
        lines
    }
}

/// Drop the maximal run of empty lines at the end.
pub open spec fn drop_trailing(lines: Seq<Seq<char>>) -> Seq<Seq<char>>
    decreases lines.len(),
{
    if lines.len() > 0 && lines[lines.len() - 1].len() == 0 {
        drop_trailing(lines.drop_last())
    } else {
        lines
    }
}

/// Drop the empty lines at both ends; interior empty lines stay.
pub open spec fn trim_blanks(lines: Seq<Seq<char>>) -> Seq<Seq<char>> {
    drop_trailing(drop_leading(lines))
}

pub proof fn lemma_ws_total_pointwise(a: Seq<Seq<char>>, b: Seq<Seq<char>>)
    requires
        a.len() == b.len(),
        forall|i: int| 0 <= i < a.len() ==> ws_count(b[i]) <= ws_count(a[i]),
    ensures
        ws_total(b) <= ws_total(a),
        forall|k: int|
            0 <= k < a.len() && ws_count(b[k]) < ws_count(a[k]) ==> ws_total(b) < ws_total(a),
    decreases a.len(),
{
    if a.len() > 0 {
        assert(forall|i: int|
            0 <= i < a.skip(1).len() ==> ws_count(b.skip(1)[i]) <= ws_count(a.skip(1)[i])) by {
            assert(forall|i: int| 0 <= i < a.skip(1).len() ==> a.skip(1)[i] == a[i + 1]);
            assert(forall|i: int| 0 <= i < b.skip(1).len() ==> b.skip(1)[i] == b[i + 1]);
        }
        lemma_ws_total_pointwise(a.skip(1), b.skip(1));
        assert forall|k: int|
            0 <= k < a.len() && ws_count(b[k]) < ws_count(a[k]) implies ws_total(b) < ws_total(
            a,
        ) by {
            if k > 0 {
                assert(a.skip(1)[k - 1] == a[k]);
                assert(b.skip(1)[k - 1] == b[k]);
            }
        }
    }
}

pub proof fn lemma_ws_total_drop_last(lines: Seq<Seq<char>>)
    requires
        lines.len() > 0,
    ensures
        ws_total(lines.drop_last()) + ws_count(lines.last()) == ws_total(lines),
    decreases lines.len(),
{
    if lines.len() == 1 {
        assert(lines.drop_last() =~= Seq::<Seq<char>>::empty());
        assert(ws_total(lines) == ws_count(lines[0]) + ws_total(lines.skip(1)));
        assert(lines.skip(1) =~= Seq::<Seq<char>>::empty());
    } else {
        lemma_ws_total_drop_last(lines.skip(1));
        assert(lines.drop_last().skip(1) =~= lines.skip(1).drop_last());
        assert(lines.drop_last()[0] == lines[0]);
        assert(lines.skip(1).last() == lines.last());
        assert(ws_total(lines) == ws_count(lines[0]) + ws_total(lines.skip(1)));
        assert(ws_total(lines.drop_last()) == ws_count(lines.drop_last()[0]) + ws_total(
            lines.drop_last().skip(1),
        ));
    }
}

pub proof fn lemma_ws_total_remove(lines: Seq<Seq<char>>, j: int)
    requires
        0 <= j < lines.len(),
    ensures
        ws_total(lines.remove(j)) + ws_count(lines[j]) == ws_total(lines),
    decreases j,
{
    if j == 0 {
        assert(lines.remove(0) =~= lines.skip(1));
    } else {
        lemma_ws_total_remove(lines.skip(1), j - 1);
        assert(lines.remove(j).skip(1) =~= lines.skip(1).remove(j - 1));
        assert(lines.remove(j)[0] == lines[0]);
        assert(lines.skip(1)[j - 1] == lines[j]);
    }
}

/// The minimum indent is a lower bound on every non-empty line's indent.
pub proof fn lemma_min_indent_lb(lines: Seq<Seq<char>>)
    ensures
        forall|i: int|
            0 <= i < lines.len() && lines[i].len() > 0 ==> min_indent(lines) <= ws_count(lines[i]),
    decreases lines.len(),
{
    if lines.len() > 0 {
        lemma_min_indent_lb(lines.skip(1));
        lemma_min_indent_none(lines.skip(1));
        assert forall|i: int|
            0 <= i < lines.len() && lines[i].len() > 0 implies min_indent(lines) <= ws_count(
            lines[i],
        ) by {
            let rest = min_indent_opt(lines.skip(1));
            if i > 0 {
                assert(lines.skip(1)[i - 1] == lines[i]);
                assert(rest is Some);
                assert(min_indent(lines.skip(1)) <= ws_count(lines[i]));
            }
        }
    }
}

/// When the optional minimum is absent, every line is empty.
proof fn lemma_min_indent_none(lines: Seq<Seq<char>>)
    ensures
        min_indent_opt(lines) is None ==> forall|i: int|
            0 <= i < lines.len() ==> lines[i].len() == 0,
    decreases lines.len(),
{
    if lines.len() > 0 {
        lemma_min_indent_none(lines.skip(1));
        if min_indent_opt(lines) is None {
            assert forall|i: int| 0 <= i < lines.len() implies lines[i].len() == 0 by {
                if i > 0 {
                    assert(lines.skip(1)[i - 1] == lines[i]);
                }
            }
        }
    }
}

/// When the minimum exists, some non-empty line attains it.
pub proof fn lemma_min_indent_witness(lines: Seq<Seq<char>>)
    requires
        min_indent_opt(lines) is Some,
    ensures
        exists|i: int|
            0 <= i < lines.len() && lines[i].len() > 0 && ws_count(lines[i]) == min_indent(lines),
    decreases lines.len(),
{
    let rest = min_indent_opt(lines.skip(1));
    if lines[0].len() == 0 {
        lemma_min_indent_witness(lines.skip(1));
        let i = choose|i: int|
            0 <= i < lines.skip(1).len() && lines.skip(1)[i].len() > 0 && ws_count(
                lines.skip(1)[i],
            ) == min_indent(lines.skip(1));
        assert(lines.skip(1)[i] == lines[i + 1]);
        assert(lines[i + 1].len() > 0 && ws_count(lines[i + 1]) == min_indent(lines));
    } else {
        let c = ws_count(lines[0]);
        match rest {
            None => {
                assert(lines[0].len() > 0 && ws_count(lines[0]) == min_indent(lines));
            },
            Some(r) => {
                if c <= r {
                    assert(lines[0].len() > 0 && ws_count(lines[0]) == min_indent(lines));
                } else {
                    lemma_min_indent_witness(lines.skip(1));
                    let i = choose|i: int|
                        0 <= i < lines.skip(1).len() && lines.skip(1)[i].len() > 0 && ws_count(
                            lines.skip(1)[i],
                        ) == min_indent(lines.skip(1));
                    assert(lines.skip(1)[i] == lines[i + 1]);
                    assert(lines[i + 1].len() > 0 && ws_count(lines[i + 1]) == min_indent(lines));
                }
            },
        }
    }
}

/// Stripping `k` of the leading whitespace characters removes exactly `k`
/// from the count.
pub proof fn lemma_ws_count_skip(l: Seq<char>, k: int)
    requires
        0 <= k <= ws_count(l),
    ensures
        ws_count(l.skip(k)) == ws_count(l) - k,
    decreases k,
{
    crate::chartext::lemma_ws_count_le_len(l);
    if k > 0 {
        assert(l.len() > 0 && crate::chartext::is_space_char(l[0]));
        lemma_ws_count_skip(l.skip(1), k - 1);
        assert(l.skip(1).skip(k - 1) =~= l.skip(k));
    } else {
        assert(l.skip(0) =~= l);
    }
}

/// Dedent never lengthens a line's indent, keeps the line count, is the
/// identity at minimum zero, and strictly shrinks the total indent when the
/// minimum is positive.
pub proof fn lemma_dedent_effects(lines: Seq<Seq<char>>)
    ensures
        dedent(lines).len() == lines.len(),
        ws_total(dedent(lines)) <= ws_total(lines),
        min_indent(lines) == 0 ==> dedent(lines) == lines,
        min_indent(lines) > 0 ==> ws_total(dedent(lines)) < ws_total(lines),
{
    let m = min_indent(lines);
    let d = dedent(lines);
    lemma_min_indent_lb(lines);
    assert forall|i: int| 0 <= i < lines.len() implies ws_count(d[i]) <= ws_count(lines[i]) by {
        lemma_trim_line_ws(lines[i], m);
    }
    lemma_ws_total_pointwise(lines, d);
    if m == 0 {
        assert forall|i: int| 0 <= i < lines.len() implies d[i] == lines[i] by {
            assert(lines[i].skip(0) =~= lines[i]);
        }
        assert(d =~= lines);
    } else {
        lemma_min_indent_witness(lines);
        let i = choose|i: int|
            0 <= i < lines.len() && lines[i].len() > 0 && ws_count(lines[i]) == min_indent(lines);
        lemma_ws_count_skip(lines[i], m as int);
        assert(ws_count(d[i]) == ws_count(lines[i]) - m);
        assert(ws_count(d[i]) < ws_count(lines[i]));
    }
}

/// Trimming a line's indent only lowers its whitespace count.
proof fn lemma_trim_line_ws(l: Seq<char>, amount: nat)
    ensures
        ws_count(trim_line(l, amount)) <= ws_count(l),
        amount <= ws_count(l) ==> ws_count(trim_line(l, amount)) == ws_count(l) - amount,
{
    crate::chartext::lemma_ws_count_le_len(l);
    if amount <= ws_count(l) {
        lemma_ws_count_skip(l, amount as int);
    } else {
        lemma_ws_count_skip(l, ws_count(l) as int);
    }
}

/// Dropping edge blanks keeps the total indent, never grows the line count,
/// and is the identity exactly when the count is kept.
pub proof fn lemma_drop_leading_effects(lines: Seq<Seq<char>>)
    ensures
        drop_leading(lines).len() <= lines.len(),
        ws_total(drop_leading(lines)) == ws_total(lines),
        drop_leading(lines).len() == lines.len() ==> drop_leading(lines) == lines,
    decreases lines.len(),
{
    if lines.len() > 0 && lines[0].len() == 0 {
        lemma_drop_leading_effects(lines.skip(1));
    }
}

pub proof fn lemma_drop_trailing_effects(lines: Seq<Seq<char>>)
    ensures
        drop_trailing(lines).len() <= lines.len(),
        ws_total(drop_trailing(lines)) == ws_total(lines),
        drop_trailing(lines).len() == lines.len() ==> drop_trailing(lines) == lines,
    decreases lines.len(),
{
    if lines.len() > 0 && lines[lines.len() - 1].len() == 0 {
        lemma_ws_total_drop_last(lines);
        lemma_drop_trailing_effects(lines.drop_last());
    }
}

pub proof fn lemma_trim_blanks_effects(lines: Seq<Seq<char>>)
    ensures
        trim_blanks(lines).len() <= lines.len(),
        ws_total(trim_blanks(lines)) == ws_total(lines),
        trim_blanks(lines).len() == lines.len() ==> trim_blanks(lines) == lines,
{
    lemma_drop_leading_effects(lines);
    lemma_drop_trailing_effects(drop_leading(lines));
}

/// Compute the minimum count of leading whitespace characters across all
/// non-empty lines; zero when there is none.
pub fn find_min_indent(lines: &Vec<&str>) -> (r: usize)
    ensures
        r == min_indent(lines.deep_view()),
{
    let ghost dv = lines.deep_view();
    let mut cur: Option<usize> = None;
    let mut i = lines.len();
    proof {
        assert(dv.skip(i as int).len() == 0);
    }
    while i > 0
        invariant
            0 <= i <= lines.len(),
            dv == lines.deep_view(),
            dv.len() == lines.len(),
            match cur {
                None => min_indent_opt(dv.skip(i as int)) is None,
                Some(c) => min_indent_opt(dv.skip(i as int)) == Some(c as nat),
            },
        decreases i,
    {
        i = i - 1;
        let line = lines[i];
        proof {
            assert(dv[i as int] == line@);
            assert(dv.skip(i as int)[0] == dv[i as int]);
            assert(dv.skip(i as int).skip(1) =~= dv.skip(i + 1));
        }
        if line.unicode_len() != 0 {
            let c = leading_ws(line);
            cur = match cur {
                None => Some(c),
                Some(r) => Some(
                    if c <= r {
                        c
                    } else {
                        r
                    },
                ),
            };
        }
    }
    proof {
        assert(dv.skip(0) =~= dv);
    }
    match cur {
        None => 0,
        Some(m) => m,
    }
}

/// Strip up to `amount` leading whitespace characters from one line.
pub fn trim_indent<'a>(line: &'a str, amount: usize) -> (r: &'a str)
    ensures
        r@ == trim_line(line@, amount as nat),
{
    let lw = leading_ws(line);
    let k = if amount <= lw {
        amount
    } else {
        lw
    };
    proof {
        crate::chartext::lemma_ws_count_le_len(line@);
    }
    let r = line.substring_char(k, line.unicode_len());
    proof {
        assert(r@ =~= line@.skip(k as int));
    }
    r
}

/// Strip the common indentation from every line.
pub fn fix_indents<'a>(lines: Vec<&'a str>) -> (r: Vec<&'a str>)
    ensures
        r.deep_view() == dedent(lines.deep_view()),
{
    let ghost dv = lines.deep_view();
    let m = find_min_indent(&lines);
    let mut r: Vec<&'a str> = Vec::new();
    let mut i: usize = 0;
    while i < lines.len()
        invariant
            0 <= i <= lines.len(),
            dv == lines.deep_view(),
            dv.len() == lines.len(),
            m == min_indent(dv),
            r.deep_view().len() == i,
            forall|j: int| 0 <= j < i ==> r.deep_view()[j] == trim_line(dv[j], m as nat),
        decreases lines.len() - i,
    {
        proof {
            assert(dv[i as int] == lines[i as int]@);
        }
        let t = trim_indent(lines[i], m);
        let ghost prior = r.deep_view();
        r.push(t);
        proof {
            assert(r.deep_view() =~= prior.push(t@));
        }
        i = i + 1;
    }
    proof {
        assert(r.deep_view() =~= dedent(dv));
    }
    r
}

/// Remove a maximal run of fully-blank lines from the start and from the
/// end of the sequence.
pub fn trim_empty_lines<'a>(lines: Vec<&'a str>) -> (r: Vec<&'a str>)
    ensures
        r.deep_view() == trim_blanks(lines.deep_view()),
{
    let ghost dv = lines.deep_view();
    let n = lines.len();
    let mut s: usize = 0;
    while s < n && lines[s].unicode_len() == 0
        invariant
            0 <= s <= n,
            dv == lines.deep_view(),
            dv.len() == n,
            forall|j: int| 0 <= j < s ==> dv[j].len() == 0,
        decreases n - s,
    {
        proof {
            assert(dv[s as int] == lines[s as int]@);
        }
        s = s + 1;
    }
    let mut e: usize = n;
    while e > s && lines[e - 1].unicode_len() == 0
        invariant
            s <= e <= n,
            dv == lines.deep_view(),
            dv.len() == n,
            forall|j: int| e <= j < n ==> dv[j].len() == 0,
        decreases e,
    {
        proof {
            assert(dv[e - 1] == lines[e - 1]@);
        }
        e = e - 1;
    }
    proof {
        assert(s < n ==> dv[s as int] == lines[s as int]@);
        assert(e > s ==> dv[e - 1] == lines[e - 1]@);
        lemma_drop_leading_skip(dv, s as int);
        lemma_drop_trailing_take(dv.skip(s as int), e - s);
    }
    let mut r: Vec<&'a str> = Vec::new();
    let mut i = s;
    while i < e
        invariant
            s <= i <= e <= n,
            dv == lines.deep_view(),
            dv.len() == n,
            r.deep_view().len() == i - s,
            forall|j: int| 0 <= j < i - s ==> r.deep_view()[j] == dv[s + j],
        decreases e - i,
    {
        proof {
            assert(dv[i as int] == lines[i as int]@);
        }
        let ghost prior = r.deep_view();
        let x = lines[i];
        r.push(x);
        proof {
            assert(r.deep_view() =~= prior.push(x@));
        }
        i = i + 1;
    }
    proof {
        assert(r.deep_view() =~= dv.skip(s as int).take(e - s));
    }
    r
}

proof fn lemma_drop_leading_skip(lines: Seq<Seq<char>>, s: int)
    requires
        0 <= s <= lines.len(),
        forall|j: int| 0 <= j < s ==> lines[j].len() == 0,
        s < lines.len() ==> lines[s].len() > 0,
    ensures
        drop_leading(lines) == lines.skip(s),
    decreases s,
{
    if s == 0 {
        assert(lines.skip(0) =~= lines);
    } else {
        lemma_drop_leading_skip(lines.skip(1), s - 1);
        assert(lines.skip(1).skip(s - 1) =~= lines.skip(s));
    }
}

proof fn lemma_drop_trailing_take(lines: Seq<Seq<char>>, e: int)
    requires
        0 <= e <= lines.len(),
        forall|j: int| e <= j < lines.len() ==> lines[j].len() == 0,
        e > 0 ==> lines[e - 1].len() > 0,
    ensures
        drop_trailing(lines) == lines.take(e),
    decreases lines.len(),
{
    if lines.len() == 0 {
        assert(lines.take(0) =~= lines);
    } else if lines[lines.len() - 1].len() == 0 {
        assert(e < lines.len());
        lemma_drop_trailing_take(lines.drop_last(), e);
        assert(lines.drop_last().take(e) =~= lines.take(e));
    } else {
        assert(e == lines.len());
        assert(lines.take(e) =~= lines);
    }
}

/// Remove the line at index `n`.
pub fn pop_line<'a>(n: usize, lines: &Vec<&'a str>) -> (r: Vec<&'a str>)
    requires
        n < lines@.len(),
    ensures
        r.deep_view() == lines.deep_view().remove(n as int),
{
    let ghost dv = lines.deep_view();
    let mut r: Vec<&'a str> = Vec::new();
    let mut i: usize = 0;
    while i < lines.len()
        invariant
            0 <= i <= lines.len(),
            n < lines.len(),
            dv == lines.deep_view(),
            dv.len() == lines.len(),
            r.deep_view().len() == if i <= n {
                i as int
            } else {
                i - 1
            },
            forall|j: int| 0 <= j < i && j < n ==> r.deep_view()[j] == dv[j],
            forall|j: int| n < j < i ==> r.deep_view()[j - 1] == dv[j],
        decreases lines.len() - i,
    {
        proof {
            assert(dv[i as int] == lines[i as int]@);
        }
        if i != n {
            let ghost prior = r.deep_view();
            let x = lines[i];
            r.push(x);
            proof {
                assert(r.deep_view() =~= prior.push(x@));
            }
        }
        i = i + 1;
    }
    proof {
        assert(r.deep_view() =~= dv.remove(n as int));
    }
    r
}

/// Working state of one block while it is being normalized.
#[derive(Debug)]
pub struct SegmentOptimizer<'a> {
    pub lines: Vec<&'a str>,
    pub inferred_type: FileType,
    pub inferred_path: Option<String>,
}

impl<'a> View for SegmentOptimizer<'a> {
    type V = NormalizationState;

    open spec fn view(&self) -> NormalizationState {
        NormalizationState {
            lines: self.lines.deep_view(),
            file_type: self.inferred_type,
            path: self.inferred_path.deep_view(),
        }
    }
}

impl<'a> PartialEq for SegmentOptimizer<'a> {
    fn eq(&self, other: &Self) -> (r: bool) {
        let types_eq = self.inferred_type == other.inferred_type;
        let paths_eq = match (&self.inferred_path, &other.inferred_path) {
            (None, None) => true,
            (Some(a), Some(b)) => str_eq(a.as_str(), b.as_str()),
            _ => false,
        };
        let r = types_eq && paths_eq && lines_eq(&self.lines, &other.lines);
        proof {
            if r {
                assert(self@ =~~= other@);
            }
        }
        r
    }
}

impl<'a> vstd::std_specs::cmp::PartialEqSpecImpl for SegmentOptimizer<'a> {
    open spec fn obeys_eq_spec() -> bool {
        true
    }

    open spec fn eq_spec(&self, other: &Self) -> bool {
        self@ == other@
    }
}

/// Whether two line vectors hold the same text.
fn lines_eq(a: &Vec<&str>, b: &Vec<&str>) -> (r: bool)
    ensures
        r == (a.deep_view() == b.deep_view()),
{
    let ghost adv = a.deep_view();
    let ghost bdv = b.deep_view();
    if a.len() != b.len() {
        proof {
            assert(adv.len() == a@.len());
            assert(bdv.len() == b@.len());
        }
        return false;
    }
    let mut i: usize = 0;
    while i < a.len()
        invariant
            0 <= i <= a.len(),
            a.len() == b.len(),
            adv == a.deep_view(),
            bdv == b.deep_view(),
            adv.len() == a.len(),
            bdv.len() == b.len(),
            forall|j: int| 0 <= j < i ==> adv[j] == bdv[j],
        decreases a.len() - i,
    {
        proof {
            assert(adv[i as int] == a[i as int]@);
            assert(bdv[i as int] == b[i as int]@);
        }
        if !str_eq(a[i], b[i]) {
            return false;
        }
        i = i + 1;
    }
    proof {
        assert(adv =~= bdv);
    }
    true
}

/// The initial state of a block: its lines, its classified type, no path.
pub open spec fn init_state(tag: Option<Seq<char>>, text: Seq<char>) -> NormalizationState {
    NormalizationState { lines: split_lines_spec(text), file_type: classify_opt(tag), path: None }
}

/// One normalization round: dedent, trim the edge blanks, then detect and
/// remove the path comment unless a path is already set.
pub open spec fn round(m: NormalizationState) -> NormalizationState {
    let t = trim_blanks(dedent(m.lines));
    match m.path {
        Some(p) => NormalizationState { lines: t, file_type: m.file_type, path: Some(p) },
        None => match detect_spec(m.file_type, t) {
            None => NormalizationState { lines: t, file_type: m.file_type, path: None },
            Some((j, p)) => NormalizationState {
                lines: t.remove(j),
                file_type: m.file_type,
                path: Some(p),
            },
        },
    }
}

/// A round that changes the state shrinks the measure
/// `(total indent, line count)` lexicographically.
pub proof fn lemma_round_decreases(m: NormalizationState)
    requires
        round(m) != m,
    ensures
        ws_total(round(m).lines) < ws_total(m.lines) || (ws_total(round(m).lines) == ws_total(
            m.lines,
        ) && round(m).lines.len() < m.lines.len()),
{
    let l = m.lines;
    let d = dedent(l);
    let t = trim_blanks(d);
    lemma_dedent_effects(l);
    lemma_trim_blanks_effects(d);
    let after_detect: Seq<Seq<char>> = match m.path {
        Some(_) => t,
        None => match detect_spec(m.file_type, t) {
            None => t,
            Some((j, _)) => t.remove(j),
        },
    };
    assert(round(m).lines == after_detect);
    if m.path is None && detect_spec(m.file_type, t) is Some {
        let (j, _) = detect_spec(m.file_type, t).unwrap();
        lemma_detect_some_range(m.file_type, t);
        lemma_ws_total_remove(t, j);
        assert(after_detect.len() < t.len());
        assert(ws_total(after_detect) <= ws_total(t));
    } else {
        assert(after_detect == t);
    }
    if min_indent(l) > 0 {
        assert(ws_total(d) < ws_total(l));
        assert(ws_total(after_detect) <= ws_total(t));
        assert(ws_total(t) == ws_total(d));
    } else {
        assert(d == l);
        assert(ws_total(t) == ws_total(l));
        if t.len() == l.len() {
            assert(t == l);
            if m.path is None && detect_spec(m.file_type, t) is Some {
                assert(after_detect.len() < l.len());
            } else {
                assert(round(m).lines == m.lines);
                assert(round(m).path == m.path);
                assert(round(m).file_type == m.file_type);
                assert(round(m) == m);
            }
        } else {
            assert(t.len() < l.len());
            assert(after_detect.len() <= t.len());
        }
    }
}

/// Repeated rounds to the fixed point: the normalized state.
pub open spec fn normalize_spec(m: NormalizationState) -> NormalizationState
    decreases ws_total(m.lines), m.lines.len(),
    via normalize_spec_dec
{
    if round(m) == m {
        m
    } else {
        normalize_spec(round(m))
    }
}

#[via_fn]
proof fn normalize_spec_dec(m: NormalizationState) {
    if round(m) != m {
        lemma_round_decreases(m);
    }
}

/// The normalized state is a fixed point of the round function.
pub proof fn lemma_normalize_fixed(m: NormalizationState)
    ensures
        round(normalize_spec(m)) == normalize_spec(m),
    decreases ws_total(m.lines), m.lines.len(),
{
    if round(m) != m {
        lemma_round_decreases(m);
        lemma_normalize_fixed(round(m));
    }
}

/// Normalization is idempotent: normalizing an already-normalized state
/// returns it unchanged.
pub proof fn lemma_normalize_idempotent(m: NormalizationState)
    ensures
        normalize_spec(normalize_spec(m)) == normalize_spec(m),
{
    lemma_normalize_fixed(m);
}

/// After normalization the minimum leading-whitespace count over non-empty
/// lines is zero; for an empty or all-empty sequence that minimum is zero
/// by definition.
pub proof fn lemma_normalize_dedented(m: NormalizationState)
    ensures
        min_indent(normalize_spec(m).lines) == 0,
{
    lemma_normalize_fixed(m);
    let n = normalize_spec(m);
    if min_indent(n.lines) > 0 {
        lemma_dedent_effects(n.lines);
        lemma_trim_blanks_effects(dedent(n.lines));
        let t = trim_blanks(dedent(n.lines));
        assert(ws_total(t) < ws_total(n.lines));
        if n.path is None && detect_spec(n.file_type, t) is Some {
            let (j, _) = detect_spec(n.file_type, t).unwrap();
            lemma_detect_some_range(n.file_type, t);
            lemma_ws_total_remove(t, j);
            assert(ws_total(round(n).lines) <= ws_total(t));
        } else {
            assert(round(n).lines == t);
        }
        assert(ws_total(round(n).lines) < ws_total(n.lines));
        assert(false);
    }
}

/// Run the path detector over the lines; on a hit, hand back the extracted
/// path and the lines with that one line removed.
pub fn path_detect_and_pop<'a>(ft: FileType, lines: &Vec<&'a str>) -> (r: (
    Option<String>,
    Vec<&'a str>,
))
    ensures
        match detect_spec(ft, lines.deep_view()) {
            None => r.0 is None && r.1.deep_view() == lines.deep_view(),
            Some((j, p)) => match r.0 {
                Some(found) => found@ == p && r.1.deep_view() == lines.deep_view().remove(j),
                None => false,
            },
        },
{
    let detection = detect_path(ft, lines);
    match detection {
        None => (None, copy_lines(lines)),
        Some(pd) => {
            let popped = pop_line(pd.line_number, lines);
            (Some(pd.path), popped)
        },
    }
}

/// One round of the normalizer over the working state.
pub fn opt_once<'a>(so: &SegmentOptimizer<'a>) -> (r: SegmentOptimizer<'a>)
    ensures
        r@ == round(so@),
{
    let ft = so.inferred_type;
    let tidied_lines = trim_empty_lines(fix_indents(copy_lines(&so.lines)));
    let (path, lines) = match &so.inferred_path {
        Some(p) => (Some(p.clone()), tidied_lines),
        None => path_detect_and_pop(ft, &tidied_lines),
    };
    let r = SegmentOptimizer { lines, inferred_type: ft, inferred_path: path };
    proof {
        assert(r@ =~~= round(so@));
    }
    r
}

/// Normalize until the state settles: the returned state is the fixed point
/// reached from the input.
pub fn optimize<'a>(so: SegmentOptimizer<'a>) -> (r: SegmentOptimizer<'a>)
    ensures
        r@ == normalize_spec(so@),
{
    let ghost m0 = so@;
    let mut prev = so;
    let mut current = opt_once(&prev);
    while !(current == prev)
        invariant
            current@ == round(prev@),
            normalize_spec(m0) == normalize_spec(prev@),
        decreases ws_total(prev@.lines), prev@.lines.len(),
    {
        proof {
            lemma_round_decreases(prev@);
        }
        prev = current;
        current = opt_once(&prev);
    }
    current
}

impl<'a> SegmentOptimizer<'a> {
    /// The initial working state of a block: its lines split, its tag
    /// classified, no path yet.
    pub fn from_block(block: &'a RawCodeBlock) -> (r: SegmentOptimizer<'a>)
        ensures
            r@ == init_state(block.language_tag.deep_view(), block.raw_text@),
    {
        let lines = split_lines(block.raw_text.as_str());
        let itype = FileType::from(&block.language_tag);
        let r = SegmentOptimizer { lines, inferred_type: itype, inferred_path: None };
        proof {
            assert(r@ =~~= init_state(block.language_tag.deep_view(), block.raw_text@));
        }
        r
    }

    /// Normalize until the state settles.
    pub fn optimize(self) -> (r: SegmentOptimizer<'a>)
        ensures
            r@ == normalize_spec(self@),
    {
        optimize(self)
    }
}

/// A fresh vector with the same lines.
fn copy_lines<'a>(lines: &Vec<&'a str>) -> (r: Vec<&'a str>)
    ensures
        r.deep_view() == lines.deep_view(),
{
    let ghost dv = lines.deep_view();
    let mut r: Vec<&'a str> = Vec::new();
    let mut i: usize = 0;
    while i < lines.len()
        invariant
            0 <= i <= lines.len(),
            dv == lines.deep_view(),
            dv.len() == lines.len(),
            r.deep_view().len() == i,
            forall|j: int| 0 <= j < i ==> r.deep_view()[j] == dv[j],
        decreases lines.len() - i,
    {
        proof {
            assert(dv[i as int] == lines[i as int]@);
        }
        let ghost prior = r.deep_view();
        let x = lines[i];
        r.push(x);
        proof {
            assert(r.deep_view() =~= prior.push(x@));
        }
        i = i + 1;
    }
    proof {
        assert(r.deep_view() =~= dv);
    }
    r
}

} // verus!
