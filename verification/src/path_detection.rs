//! Detection of an author-supplied file path embedded as a leading comment.
//!
//! Each recognized file type owns one comment-leader pattern and one set of
//! filename extensions.  A line matches when, at the leftmost occurrence of
//! the leader from which the whole pattern can be read, the leader is
//! followed by optional whitespace and a filename token: a word character,
//! any characters, then a dot and a known extension ending at a word
//! boundary.  The token is read greedily, so it ends at the last position
//! where a dot and an extension fit.  Only the first three lines of a block
//! are searched, and the first matching line wins.
use crate::chartext::{is_space, lemma_ws_count_is_prefix, str_eq, ws_count};
use crate::filetype::FileType;
use vstd::prelude::*;

verus! {

/// Word characters: ASCII letters, digits and underscore.
pub open spec fn is_word_char(c: char) -> bool {
    let u = c as u32;
    (0x61 <= u && u <= 0x7A) || (0x41 <= u && u <= 0x5A) || (0x30 <= u && u <= 0x39) || u == 0x5F
}

pub fn is_word(c: char) -> (r: bool)
    ensures
        r == is_word_char(c),
{
    let u = c as u32;
    (0x61 <= u && u <= 0x7A) || (0x41 <= u && u <= 0x5A) || (0x30 <= u && u <= 0x39) || u == 0x5F
}

/// The comment leader of each type; `Unknown` has none and never matches.
pub open spec fn leader_of(ft: FileType) -> Seq<char> {
    match ft {
        FileType::Asm => seq![';'],
        FileType::Bash => seq!['#'],
        FileType::C => seq!['/', '/'],
        FileType::JavaScript => seq!['/', '/'],
        FileType::Rust => seq!['/', '/'],
        FileType::Unknown => Seq::empty(),
    }
}

/// The recognized filename extensions of each type, in lookup order.
pub open spec fn exts_of(ft: FileType) -> Seq<Seq<char>> {
    match ft {
        FileType::Asm => seq![seq!['s'], seq!['a', 's', 'm']],
        FileType::Bash => seq![seq!['s', 'h']],
        FileType::C => seq![seq!['c'], seq!['h']],
        FileType::JavaScript => seq![seq!['j', 's']],
        FileType::Rust => seq![seq!['r', 's']],
        FileType::Unknown => Seq::empty(),
    }
}

/// A word boundary right after position `e - 1`.
pub open spec fn boundary_at(l: Seq<char>, e: int) -> bool {
    e == l.len() || !is_word_char(l[e])
}

/// Extension `x`, preceded by a dot at position `m`, ends at a word
/// boundary.
pub open spec fn ext_match_at(l: Seq<char>, x: Seq<char>, m: int) -> bool {
    &&& 0 <= m
    &&& m + 1 + x.len() <= l.len()
    &&& l[m] == '.'
    &&& l.subrange(m + 1, m + 1 + x.len() as int) == x
    &&& boundary_at(l, m + 1 + x.len() as int)
}

/// The end of the token if some listed extension sits after a dot at `m`.
pub open spec fn ext_end(l: Seq<char>, exts: Seq<Seq<char>>, m: int) -> Option<int>
    decreases exts.len(),
{
    if exts.len() == 0 {
        None
    } else if ext_match_at(l, exts[0], m) {
        Some(m + 1 + exts[0].len() as int)
    } else {
        ext_end(l, exts.skip(1), m)
    }
}

/// The greatest dot position in `lo..=hi` where an extension matches,
/// together with the token end there; the token is read greedily.
pub open spec fn find_dot(l: Seq<char>, exts: Seq<Seq<char>>, lo: int, hi: int) -> Option<
    (int, int),
>
    decreases hi - lo + 1,
{
    if hi < lo {
        None
    } else {
        match ext_end(l, exts, hi) {
            Some(e) => Some((hi, e)),
            None => find_dot(l, exts, lo, hi - 1),
        }
    }
}

/// A full pattern match whose leader starts at `i`: the capture runs from
/// the first word character after the leader and its whitespace to the
/// greedy token end.
pub open spec fn match_at(l: Seq<char>, ft: FileType, i: int) -> Option<(int, int)> {
    let ld = leader_of(ft);
    if !(0 <= i && i + ld.len() <= l.len() && l.subrange(i, i + ld.len() as int) == ld) {
        None
    } else {
        let w = i + ld.len() + ws_count(l.skip(i + ld.len() as int));
        if w < l.len() && is_word_char(l[w as int]) {
            match find_dot(l, exts_of(ft), w as int + 1, l.len() - 1) {
                Some((m, e)) => Some((w as int, e)),
                None => None,
            }
        } else {
            None
        }
    }
}

/// The leftmost start from which the whole pattern matches.
pub open spec fn scan_from(l: Seq<char>, ft: FileType, i: int) -> Option<(int, int)>
    decreases l.len() - i,
{
    if i < 0 || i >= l.len() {
        None
    } else if match_at(l, ft, i) is Some {
        match_at(l, ft, i)
    } else {
        scan_from(l, ft, i + 1)
    }
}

/// The capture bounds of a line's match, if any.
pub open spec fn line_match(l: Seq<char>, ft: FileType) -> Option<(int, int)> {
    scan_from(l, ft, 0)
}

/// First matching line among lines `j..3`.
pub open spec fn detect_from(ft: FileType, lines: Seq<Seq<char>>, j: int) -> Option<
    (int, Seq<char>),
>
    decreases 3 - j,
{
    if j < 0 || j >= 3 || j >= lines.len() {
        None
    } else {
        match line_match(lines[j], ft) {
            Some((w, e)) => Some((j, lines[j].subrange(w, e))),
            None => detect_from(ft, lines, j + 1),
        }
    }
}

/// The detected path of a block: the line index and the captured token of
/// the first match within the first three lines.  `Unknown` never detects.
pub open spec fn detect_spec(ft: FileType, lines: Seq<Seq<char>>) -> Option<(int, Seq<char>)> {
    if ft == FileType::Unknown {
        None
    } else {
        detect_from(ft, lines, 0)
    }
}

#[derive(Debug)]
pub struct PathDetection {
    pub line_number: usize,
    pub path: String,
}

impl PartialEq for PathDetection {
    fn eq(&self, other: &Self) -> (r: bool) {
        self.line_number == other.line_number && str_eq(self.path.as_str(), other.path.as_str())
    }
}

impl vstd::std_specs::cmp::PartialEqSpecImpl for PathDetection {
    open spec fn obeys_eq_spec() -> bool {
        true
    }

    open spec fn eq_spec(&self, other: &Self) -> bool {
        self.line_number == other.line_number && self.path@ == other.path@
    }
}

fn leader_vec(ft: FileType) -> (r: Vec<char>)
    ensures
        r@ == leader_of(ft),
{
    let r: Vec<char> = match ft {
        FileType::Asm => vec![';'],
        FileType::Bash => vec!['#'],
        FileType::C => vec!['/', '/'],
        FileType::JavaScript => vec!['/', '/'],
        FileType::Rust => vec!['/', '/'],
        FileType::Unknown => vec![],
    };
    proof {
        assert(r@ =~= leader_of(ft));
    }
    r
}

fn exts_vec(ft: FileType) -> (r: Vec<Vec<char>>)
    ensures
        r.deep_view() == exts_of(ft),
{
    let r: Vec<Vec<char>> = match ft {
        FileType::Asm => vec![vec!['s'], vec!['a', 's', 'm']],
        FileType::Bash => vec![vec!['s', 'h']],
        FileType::C => vec![vec!['c'], vec!['h']],
        FileType::JavaScript => vec![vec!['j', 's']],
        FileType::Rust => vec![vec!['r', 's']],
        FileType::Unknown => vec![],
    };
    proof {
        assert(r.deep_view() =~~= exts_of(ft));
    }
    r
}

/// Whether `pat` occurs in `l` starting exactly at `i`.
fn subseq_matches(l: &str, i: usize, pat: &Vec<char>) -> (r: bool)
    requires
        i <= l@.len(),
    ensures
        r == (i + pat@.len() <= l@.len() && l@.subrange(i as int, i + pat@.len() as int) == pat@),
{
    let n = l.unicode_len();
    if pat.len() > n - i {
        return false;
    }
    let mut k: usize = 0;
    while k < pat.len()
        invariant
            0 <= k <= pat.len(),
            i + pat.len() <= n,
            n == l@.len(),
            forall|j: int| 0 <= j < k ==> l@[i + j] == pat@[j],
        decreases pat.len() - k,
    {
        if l.get_char(i + k) != pat[k] {
            assert(l@.subrange(i as int, i + pat@.len() as int)[k as int] != pat@[k as int]);
            return false;
        }
        k = k + 1;
    }
    proof {
        assert(l@.subrange(i as int, i + pat@.len() as int) =~= pat@);
    }
    true
}

/// The token end if a dot at `m` is followed by one of the extensions.
fn ext_end_exec(l: &str, exts: &Vec<Vec<char>>, k: usize, m: usize) -> (r: Option<usize>)
    requires
        k <= exts.len(),
        m < l@.len(),
    ensures
        match r {
            Some(e) => ext_end(l@, exts.deep_view().skip(k as int), m as int) == Some(e as int) && m
                < e <= l@.len(),
            None => ext_end(l@, exts.deep_view().skip(k as int), m as int) is None,
        },
    decreases exts.len() - k,
{
    let ghost dvk = exts.deep_view().skip(k as int);
    if k == exts.len() {
        proof {
            assert(dvk.len() == 0);
        }
        return None;
    }
    proof {
        assert(dvk[0] == exts.deep_view()[k as int]);
        assert(exts.deep_view()[k as int] =~= exts[k as int]@);
    }
    let x = &exts[k];
    let n = l.unicode_len();
    let mut hit = false;
    if l.get_char(m) == '.' {
        if subseq_matches(l, m + 1, x) {
            let e = m + 1 + x.len();
            if e == n || !is_word(l.get_char(e)) {
                hit = true;
            }
        }
    }
    if hit {
        let e = m + 1 + x.len();
        proof {
            assert(ext_match_at(l@, dvk[0], m as int));
        }
        Some(e)
    } else {
        proof {
            assert(!ext_match_at(l@, dvk[0], m as int));
            assert(dvk.skip(1) =~= exts.deep_view().skip(k + 1));
        }
        ext_end_exec(l, exts, k + 1, m)
    }
}

/// Scan dot positions downward from `hi_plus - 1` to `lo`.
fn find_dot_exec(l: &str, exts: &Vec<Vec<char>>, lo: usize, hi_plus: usize) -> (r: Option<
    (usize, usize),
>)
    requires
        hi_plus <= l@.len(),
    ensures
        match r {
            Some((m, e)) => find_dot(l@, exts.deep_view(), lo as int, hi_plus - 1) == Some(
                (m as int, e as int),
            ) && lo <= m < e <= l@.len(),
            None => find_dot(l@, exts.deep_view(), lo as int, hi_plus - 1) is None,
        },
    decreases hi_plus,
{
    if hi_plus <= lo {
        return None;
    }
    let m = hi_plus - 1;
    match ext_end_exec(l, exts, 0, m) {
        Some(e) => {
            proof {
                assert(exts.deep_view().skip(0) =~= exts.deep_view());
            }
            Some((m, e))
        },
        None => {
            proof {
                assert(exts.deep_view().skip(0) =~= exts.deep_view());
            }
            find_dot_exec(l, exts, lo, m)
        },
    }
}

/// First position at or after `i` that is not whitespace.
fn skip_ws(l: &str, i: usize) -> (w: usize)
    requires
        i <= l@.len(),
    ensures
        w == i + ws_count(l@.skip(i as int)),
        i <= w <= l@.len(),
{
    let n = l.unicode_len();
    let mut j = i;
    while j < n && is_space(l.get_char(j))
        invariant
            i <= j <= n,
            n == l@.len(),
            forall|t: int| i <= t < j ==> crate::chartext::is_space_char(#[trigger] l@[t]),
        decreases n - j,
    {
        j = j + 1;
    }
    proof {
        assert forall|t: int| 0 <= t < j - i implies crate::chartext::is_space_char(
            l@.skip(i as int)[t],
        ) by {
            assert(crate::chartext::is_space_char(l@[i + t]));
        }
        lemma_ws_count_is_prefix(l@.skip(i as int), j - i);
    }
    j
}

/// The capture bounds of a full match whose leader starts at `i`.
fn match_at_exec(l: &str, ft: FileType, leader: &Vec<char>, exts: &Vec<Vec<char>>, i: usize) -> (r:
    Option<(usize, usize)>)
    requires
        leader@ == leader_of(ft),
        exts.deep_view() == exts_of(ft),
        i <= l@.len(),
    ensures
        match r {
            Some((w, e)) => match_at(l@, ft, i as int) == Some((w as int, e as int)) && w < e
                <= l@.len(),
            None => match_at(l@, ft, i as int) is None,
        },
{
    let n = l.unicode_len();
    if !subseq_matches(l, i, leader) {
        return None;
    }
    let a = i + leader.len();
    let w = skip_ws(l, a);
    if w < n && is_word(l.get_char(w)) {
        match find_dot_exec(l, exts, w + 1, n) {
            Some((m, e)) => Some((w, e)),
            None => None,
        }
    } else {
        None
    }
}

/// The first match in the line, scanning starts left to right.
fn line_match_exec(l: &str, ft: FileType, leader: &Vec<char>, exts: &Vec<Vec<char>>) -> (r: Option<
    (usize, usize),
>)
    requires
        leader@ == leader_of(ft),
        exts.deep_view() == exts_of(ft),
    ensures
        match r {
            Some((w, e)) => line_match(l@, ft) == Some((w as int, e as int)) && w < e <= l@.len(),
            None => line_match(l@, ft) is None,
        },
{
    let n = l.unicode_len();
    let mut i: usize = 0;
    while i < n
        invariant
            0 <= i <= n,
            n == l@.len(),
            leader@ == leader_of(ft),
            exts.deep_view() == exts_of(ft),
            scan_from(l@, ft, 0) == scan_from(l@, ft, i as int),
        decreases n - i,
    {
        match match_at_exec(l, ft, leader, exts, i) {
            Some((w, e)) => {
                return Some((w, e));
            },
            None => {
                i = i + 1;
            },
        }
    }
    None
}

/// Find an embedded file-path comment in the first three lines of a block.
/// Returns the first (lowest line index) match; `Unknown` never detects.
pub fn detect_path(ft: FileType, lines: &Vec<&str>) -> (r: Option<PathDetection>)
    ensures
        match r {
            Some(pd) => detect_spec(ft, lines.deep_view()) == Some(
                (pd.line_number as int, pd.path@),
            ) && pd.line_number < lines@.len() && pd.line_number < 3,
            None => detect_spec(ft, lines.deep_view()) is None,
        },
{
    if matches!(ft, FileType::Unknown) {
        return None;
    }
    let ghost dv = lines.deep_view();
    let leader = leader_vec(ft);
    let exts = exts_vec(ft);
    let mut j: usize = 0;
    while j < 3 && j < lines.len()
        invariant
            0 <= j <= 3,
            dv == lines.deep_view(),
            dv.len() == lines.len(),
            leader@ == leader_of(ft),
            exts.deep_view() == exts_of(ft),
            ft != FileType::Unknown,
            detect_from(ft, dv, 0) == detect_from(ft, dv, j as int),
        decreases 3 - j,
    {
        let line = lines[j];
        proof {
            assert(dv[j as int] == line@);
        }
        match line_match_exec(line, ft, &leader, &exts) {
            Some((w, e)) => {
                let path = String::from_str(line.substring_char(w, e));
                return Some(PathDetection { line_number: j, path });
            },
            None => {
                j = j + 1;
            },
        }
    }
    None
}

/// A path comment on the fourth or a later line is never detected: the
/// search window is the first three lines, and nothing past them matters.
pub proof fn lemma_path_window(ft: FileType, lines: Seq<Seq<char>>)
    ensures
        detect_spec(ft, lines) matches Some((j, _)) ==> 0 <= j < 3,
        lines.len() >= 3 ==> detect_spec(ft, lines) == detect_spec(ft, lines.take(3)),
{
    lemma_detect_from_window(ft, lines, 0);
    if lines.len() >= 3 {
        lemma_detect_from_prefix(ft, lines, lines.take(3), 0);
    }
}

/// A detection always names one of the given lines.
pub proof fn lemma_detect_some_range(ft: FileType, lines: Seq<Seq<char>>)
    ensures
        detect_spec(ft, lines) matches Some((j, _)) ==> 0 <= j < lines.len() && j < 3,
{
    lemma_detect_from_range(ft, lines, 0);
}

proof fn lemma_detect_from_range(ft: FileType, lines: Seq<Seq<char>>, j: int)
    requires
        0 <= j <= 3,
    ensures
        detect_from(ft, lines, j) matches Some((i, _)) ==> j <= i < lines.len() && i < 3,
    decreases 3 - j,
{
    if j < 3 {
        lemma_detect_from_range(ft, lines, j + 1);
    }
}

proof fn lemma_detect_from_window(ft: FileType, lines: Seq<Seq<char>>, j: int)
    requires
        0 <= j <= 3,
    ensures
        detect_from(ft, lines, j) matches Some((i, _)) ==> j <= i < 3,
    decreases 3 - j,
{
    if j < 3 {
        lemma_detect_from_window(ft, lines, j + 1);
    }
}

proof fn lemma_detect_from_prefix(ft: FileType, lines: Seq<Seq<char>>, window: Seq<Seq<char>>, j: int)
    requires
        0 <= j <= 3,
        window.len() >= 3,
        lines.len() >= 3,
        forall|i: int| 0 <= i < 3 ==> lines[i] == window[i],
    ensures
        detect_from(ft, lines, j) == detect_from(ft, window, j),
    decreases 3 - j,
{
    if j < 3 {
        lemma_detect_from_prefix(ft, lines, window, j + 1);
    }
}

} // verus!
