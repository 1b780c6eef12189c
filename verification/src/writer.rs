//! Path confinement for the sandboxed writer.
//!
//! A segment's file name is untrusted: before anything touches the
//! filesystem it is normalized component by component, and a name that is
//! absolute or climbs out of the output root with `..` is rejected.  The
//! filesystem work itself (creating the root, scoping symlinks, writing the
//! files sequentially) lives outside this library.
use crate::chartext::{join_with, joined, str_eq};
use crate::segment::Segment;
use vstd::prelude::*;

verus! {

/// Why a batch of writes stopped: a file name escaping the sandbox root, or
/// a filesystem failure.
#[derive(Debug, PartialEq, Eq, Structural, Clone, Copy)]
pub enum WriteError {
    PathEscape,
    IOError,
}

/// Number of characters before the first `'/'` (the whole length when there
/// is none).
pub open spec fn comp_prefix_len(s: Seq<char>) -> nat
    decreases s.len(),
{
    if s.len() > 0 && s[0] != '/' {
        1 + comp_prefix_len(s.skip(1))
    } else {
        0
    }
}

proof fn lemma_comp_prefix_len_is(s: Seq<char>, i: int)
    requires
        0 <= i <= s.len(),
        forall|j: int| 0 <= j < i ==> s[j] != '/',
        i < s.len() ==> s[i] == '/',
    ensures
        comp_prefix_len(s) == i,
    decreases i,
{
    if i > 0 {
        lemma_comp_prefix_len_is(s.skip(1), i - 1);
    }
}

/// The `'/'`-separated components of a path.
pub open spec fn split_comps(s: Seq<char>) -> Seq<Seq<char>>
    decreases s.len(),
{
    if comp_prefix_len(s) < s.len() {
        seq![s.take(comp_prefix_len(s) as int)] + split_comps(s.skip(comp_prefix_len(s) as int + 1))
    } else {
        seq![s]
    }
}

/// Normalize the components left to right: empty and `"."` components are
/// dropped, `".."` removes the latest kept component and escapes when there
/// is none, anything else is kept.
pub open spec fn norm_comps(cs: Seq<Seq<char>>, acc: Seq<Seq<char>>) -> Option<Seq<Seq<char>>>
    decreases cs.len(),
{
    if cs.len() == 0 {
        Some(acc)
    } else {
        let c = cs[0];
        if c.len() == 0 || c == "."@ {
            norm_comps(cs.skip(1), acc)
        } else if c == ".."@ {
            if acc.len() == 0 {
                None
            } else {
                norm_comps(cs.skip(1), acc.drop_last())
            }
        } else {
            norm_comps(cs.skip(1), acc.push(c))
        }
    }
}

/// The confined components of a file name: `None` when the name is absolute
/// or its `..` components climb out of the root.
pub open spec fn confined(path: Seq<char>) -> Option<Seq<Seq<char>>> {
    if path.len() > 0 && path[0] == '/' {
        None
    } else {
        norm_comps(split_comps(path), Seq::empty())
    }
}

/// The relative path a confined name resolves to under the root.
pub open spec fn confined_rel(path: Seq<char>) -> Option<Seq<char>> {
    match confined(path) {
        None => None,
        Some(cs) => Some(joined(cs, "/"@)),
    }
}

/// Split a file name at `'/'`.
fn split_comps_exec<'a>(s: &'a str) -> (out: Vec<&'a str>)
    ensures
        out.deep_view() == split_comps(s@),
{
    let n = s.unicode_len();
    let mut out: Vec<&'a str> = Vec::new();
    let mut start: usize = 0;
    let mut i: usize = 0;
    proof {
        assert(s@.skip(0) =~= s@);
        assert(out.deep_view() + split_comps(s@) =~= split_comps(s@));
    }
    while i < n
        invariant
            0 <= start <= i <= n,
            n == s@.len(),
            forall|j: int| start <= j < i ==> s@[j] != '/',
            split_comps(s@) == out.deep_view() + split_comps(s@.skip(start as int)),
        decreases n - i,
    {
        if s.get_char(i) == '/' {
            let comp = s.substring_char(start, i);
            proof {
                let tail = s@.skip(start as int);
                lemma_comp_prefix_len_is(tail, i - start);
                assert(tail.take(i - start) =~= comp@);
                assert(tail.skip(i - start + 1) =~= s@.skip(i + 1));
            }
            let ghost old_dv = out.deep_view();
            out.push(comp);
            proof {
                assert(out.deep_view() =~= old_dv + seq![comp@]);
                assert(old_dv + seq![comp@] + split_comps(s@.skip(i + 1)) =~= old_dv + (
                seq![comp@] + split_comps(s@.skip(i + 1))));
            }
            start = i + 1;
        }
        i = i + 1;
    }
    let last = s.substring_char(start, n);
    let ghost old_dv = out.deep_view();
    out.push(last);
    proof {
        let tail = s@.skip(start as int);
        lemma_comp_prefix_len_is(tail, n - start);
        assert(tail =~= last@);
        assert(split_comps(tail) == seq![last@]);
        assert(out.deep_view() =~= old_dv + seq![last@]);
    }
    out
}

/// Resolve an untrusted file name to the relative path it may be written
/// to; reject with `PathEscape` exactly when it is absolute or escapes.
pub fn confine(file_name: &str) -> (r: Result<String, WriteError>)
    ensures
        match r {
            Ok(p) => confined_rel(file_name@) == Some(p@),
            Err(e) => confined_rel(file_name@) is None && e == WriteError::PathEscape,
        },
{
    let n = file_name.unicode_len();
    if n > 0 && file_name.get_char(0) == '/' {
        return Err(WriteError::PathEscape);
    }
    let comps = split_comps_exec(file_name);
    let ghost cs = comps.deep_view();
    let mut stack: Vec<&str> = Vec::new();
    let mut i: usize = 0;
    proof {
        reveal_strlit(".");
        reveal_strlit("..");
        assert(cs.skip(0) =~= cs);
        assert(stack.deep_view() =~= Seq::<Seq<char>>::empty());
    }
    while i < comps.len()
        invariant
            0 <= i <= comps.len(),
            cs == comps.deep_view(),
            cs.len() == comps.len(),
            cs == split_comps(file_name@),
            !(file_name@.len() > 0 && file_name@[0] == '/'),
            norm_comps(cs, Seq::empty()) == norm_comps(
                cs.skip(i as int),
                stack.deep_view(),
            ),
        decreases comps.len() - i,
    {
        let c = comps[i];
        proof {
            assert(cs[i as int] == c@);
            assert(cs.skip(i as int)[0] == cs[i as int]);
            assert(cs.skip(i as int).skip(1) =~= cs.skip(i + 1));
        }
        if c.unicode_len() == 0 || str_eq(c, ".") {
        } else if str_eq(c, "..") {
            proof {
                reveal_strlit(".");
                reveal_strlit("..");
            }
            if stack.len() == 0 {
                proof {
                    assert(stack.deep_view().len() == stack@.len());
                    let tail = cs.skip(i as int);
                    assert(tail[0] == c@);
                    assert(c@ == ".."@);
                    assert(!(c@.len() == 0 || c@ == "."@));
                    assert(norm_comps(tail, stack.deep_view()) is None);
                    assert(norm_comps(cs, Seq::empty()) is None);
                    assert(confined(file_name@) == norm_comps(cs, Seq::empty()));
                    assert(confined_rel(file_name@) is None);
                }
                return Err(WriteError::PathEscape);
            }
            let ghost prior = stack.deep_view();
            proof {
                assert(prior.len() == stack@.len());
            }
            stack.pop();
            proof {
                assert(stack.deep_view() =~= prior.drop_last());
            }
        } else {
            let ghost prior = stack.deep_view();
            stack.push(c);
            proof {
                assert(stack.deep_view() =~= prior.push(c@));
            }
        }
        i = i + 1;
    }
    proof {
        assert(cs.skip(cs.len() as int).len() == 0);
    }
    Ok(join_with(&stack, "/"))
}

/// The writes a batch of segments asks for, in document order: each
/// segment's confined relative path with its contents.  The batch is
/// refused at the first segment whose name escapes, and the segments after
/// it are not reached.
pub fn write_plan(segments: &Vec<Segment>) -> (r: Result<Vec<(String, String)>, WriteError>)
    ensures
        match r {
            Ok(plan) => plan@.len() == segments@.len() && forall|i: int|
                0 <= i < segments@.len() ==> confined_rel(segments@[i].file_name@) == Some(
                    plan@[i].0@,
                ) && plan@[i].1@ == segments@[i].contents@,
            Err(e) => e == WriteError::PathEscape && exists|j: int|
                0 <= j < segments@.len() && confined_rel(segments@[j].file_name@) is None && (
                forall|i: int| 0 <= i < j ==> confined_rel(segments@[i].file_name@) is Some),
        },
{
    let mut plan: Vec<(String, String)> = Vec::new();
    let mut k: usize = 0;
    while k < segments.len()
        invariant
            0 <= k <= segments.len(),
            plan@.len() == k,
            forall|i: int|
                0 <= i < k ==> confined_rel(segments@[i].file_name@) == Some(plan@[i].0@)
                    && plan@[i].1@ == segments@[i].contents@,
        decreases segments.len() - k,
    {
        let seg = &segments[k];
        match confine(seg.file_name.as_str()) {
            Ok(p) => {
                plan.push((p, seg.contents.clone()));
            },
            Err(e) => {
                return Err(e);
            },
        }
        k = k + 1;
    }
    Ok(plan)
}

} // verus!
