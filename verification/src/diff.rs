//! Word-level diff between an original and a transformed text.
//!
//! Both texts are tokenized, their LCS is computed, and each side is walked
//! left to right with a cursor into the LCS: a token equal to the current
//! LCS element is `Unchanged` and advances the cursor; any other token is
//! `Removed` (original side) or `Added` (transformed side).

use vstd::prelude::*;

use crate::lcs::{
    compute_lcs, is_subseq_of, lcs_len, lemma_lcs_len_bound, lemma_lcs_len_comm,
    lemma_lcs_len_self, lemma_spec_lcs_len, lemma_spec_lcs_subseq, spec_lcs,
};
use crate::text::{spec_tokenize, tokenize};

verus! {

/// How a token changed between the original and the transformed text.
#[derive(Clone, Copy, Debug, PartialEq, Eq, Structural)]
pub enum ChangeType {
    Unchanged,
    Added,
    Removed,
}

/// One classified token. `position` is the 0-based index within the side
/// the token belongs to (original or transformed), not a shared coordinate.
#[derive(Debug)]
pub struct WordDiff {
    pub word: String,
    pub change_type: ChangeType,
    pub position: usize,
}

/// A word diff of a text pair: both sides fully classified, plus the tally
/// of added and removed tokens. Derived and recomputable at any time; never
/// persisted.
#[derive(Debug)]
pub struct TextDiff {
    pub original_diff: Vec<WordDiff>,
    pub transformed_diff: Vec<WordDiff>,
    pub added_count: usize,
    pub removed_count: usize,
}

/// The change tags that the greedy left-to-right walk of `tokens` against
/// the common subsequence `l` assigns; a token that misses gets `miss`.
pub open spec fn marks_of(tokens: Seq<Seq<char>>, l: Seq<Seq<char>>, miss: ChangeType) -> Seq<
    ChangeType,
>
    decreases tokens.len(),
{
    if tokens.len() == 0 {
        Seq::empty()
    } else if l.len() > 0 && tokens[0] == l[0] {
        seq![ChangeType::Unchanged] + marks_of(tokens.drop_first(), l.drop_first(), miss)
    } else {
        seq![miss] + marks_of(tokens.drop_first(), l, miss)
    }
}

/// How many tokens the greedy walk matches against `l`.
pub open spec fn matched_count(tokens: Seq<Seq<char>>, l: Seq<Seq<char>>) -> nat
    decreases tokens.len(),
{
    if tokens.len() == 0 {
        0
    } else if l.len() > 0 && tokens[0] == l[0] {
        1 + matched_count(tokens.drop_first(), l.drop_first())
    } else {
        matched_count(tokens.drop_first(), l)
    }
}

/// Occurrences of a tag in a sequence of change tags.
pub open spec fn count_marked(s: Seq<ChangeType>, t: ChangeType) -> nat
    decreases s.len(),
{
    if s.len() == 0 {
        0
    } else {
        (if s[0] == t {
            1nat
        } else {
            0nat
        }) + count_marked(s.drop_first(), t)
    }
}

/// The change tags of a classified side, in order.
pub open spec fn side_marks(side: Seq<WordDiff>) -> Seq<ChangeType> {
    side.map_values(|w: WordDiff| w.change_type)
}

/// A classified side is correct for `tokens` against the common
/// subsequence `l`: one entry per token, carrying the token, its index,
/// and the tag of the greedy walk.
pub open spec fn diff_side_ok(
    side: Seq<WordDiff>,
    tokens: Seq<Seq<char>>,
    l: Seq<Seq<char>>,
    miss: ChangeType,
) -> bool {
    &&& side.len() == tokens.len()
    &&& forall|i: int|
        0 <= i < side.len() ==> (#[trigger] side[i]).word@ == tokens[i] && side[i].position == i
    &&& side_marks(side) == marks_of(tokens, l, miss)
}

/// Tokens added by the transformation: transformed tokens not in the LCS.
pub open spec fn spec_added_count(o: Seq<char>, t: Seq<char>) -> int {
    spec_tokenize(t).len() - lcs_len(spec_tokenize(o), spec_tokenize(t))
}

/// Tokens removed by the transformation: original tokens not in the LCS.
pub open spec fn spec_removed_count(o: Seq<char>, t: Seq<char>) -> int {
    spec_tokenize(o).len() - lcs_len(spec_tokenize(o), spec_tokenize(t))
}

/// Full correctness of a diff result for the text pair `(o, t)`.
pub open spec fn spec_diff_ok(r: TextDiff, o: Seq<char>, t: Seq<char>) -> bool {
    let a = spec_tokenize(o);
    let b = spec_tokenize(t);
    let l = spec_lcs(a, b);
    &&& diff_side_ok(r.original_diff@, a, l, ChangeType::Removed)
    &&& diff_side_ok(r.transformed_diff@, b, l, ChangeType::Added)
    &&& r.added_count == spec_added_count(o, t)
    &&& r.removed_count == spec_removed_count(o, t)
}

/// The greedy walk matches every element of a subsequence of its input.
proof fn lemma_matched_full(tokens: Seq<Seq<char>>, l: Seq<Seq<char>>)
    requires
        is_subseq_of(l, tokens),
    ensures
        matched_count(tokens, l) == l.len(),
    decreases tokens.len(),
{
    if tokens.len() == 0 {
    } else if l.len() > 0 && tokens[0] == l[0] {
        lemma_matched_full(tokens.drop_first(), l.drop_first());
    } else {
        lemma_matched_full(tokens.drop_first(), l);
    }
}

/// Tag tallies of the greedy walk: `miss` tags count the unmatched tokens,
/// `Unchanged` tags the matched ones.
proof fn lemma_count_marks(tokens: Seq<Seq<char>>, l: Seq<Seq<char>>, miss: ChangeType)
    requires
        miss != ChangeType::Unchanged,
    ensures
        count_marked(marks_of(tokens, l, miss), miss) == tokens.len() - matched_count(tokens, l),
        count_marked(marks_of(tokens, l, miss), ChangeType::Unchanged) == matched_count(tokens, l),
        matched_count(tokens, l) <= tokens.len(),
    decreases tokens.len(),
{
    if tokens.len() == 0 {
    } else if l.len() > 0 && tokens[0] == l[0] {
        lemma_count_marks(tokens.drop_first(), l.drop_first(), miss);
        assert((seq![ChangeType::Unchanged] + marks_of(
            tokens.drop_first(),
            l.drop_first(),
            miss,
        )).drop_first() =~= marks_of(tokens.drop_first(), l.drop_first(), miss));
    } else {
        lemma_count_marks(tokens.drop_first(), l, miss);
        assert((seq![miss] + marks_of(tokens.drop_first(), l, miss)).drop_first() =~= marks_of(
            tokens.drop_first(),
            l,
            miss,
        ));
    }
}

/// Classify one side: walk the tokens with a cursor into `l`.
fn mark_side(tokens: &Vec<String>, l: &Vec<String>, miss: ChangeType) -> (side: Vec<WordDiff>)
    ensures
        diff_side_ok(side@, tokens.deep_view(), l.deep_view(), miss),
{
    let ghost gt = tokens.deep_view();
    let ghost gl = l.deep_view();
    let mut side: Vec<WordDiff> = Vec::new();
    let mut li: usize = 0;
    let mut pos: usize = 0;
    proof {
        assert(gt.skip(0) =~= gt);
        assert(gl.skip(0) =~= gl);
        assert(side_marks(side@) + marks_of(gt, gl, miss) =~= marks_of(gt, gl, miss));
    }
    while pos < tokens.len()
        invariant
            gt == tokens.deep_view(),
            gl == l.deep_view(),
            pos <= gt.len(),
            li <= gl.len(),
            side@.len() == pos,
            forall|i: int|
                0 <= i < pos ==> (#[trigger] side@[i]).word@ == gt[i] && side@[i].position == i,
            marks_of(gt, gl, miss) == side_marks(side@) + marks_of(
                gt.skip(pos as int),
                gl.skip(li as int),
                miss,
            ),
        decreases gt.len() - pos,
    {
        let ghost rest_t = gt.skip(pos as int);
        let ghost rest_l = gl.skip(li as int);
        let matched = li < l.len() && tokens[pos] == l[li];
        let tag = if matched {
            ChangeType::Unchanged
        } else {
            miss
        };
        let w = WordDiff { word: tokens[pos].clone(), change_type: tag, position: pos };
        proof {
            assert(rest_t[0] == gt[pos as int]);
            if matched {
                assert(rest_l[0] == gl[li as int]);
                assert(rest_t.drop_first() =~= gt.skip(pos + 1));
                assert(rest_l.drop_first() =~= gl.skip(li + 1));
                assert(marks_of(rest_t, rest_l, miss) == seq![ChangeType::Unchanged] + marks_of(
                    gt.skip(pos + 1),
                    gl.skip(li + 1),
                    miss,
                ));
            } else {
                assert(rest_t.drop_first() =~= gt.skip(pos + 1));
                assert(marks_of(rest_t, rest_l, miss) == seq![tag] + marks_of(
                    gt.skip(pos + 1),
                    rest_l,
                    miss,
                ));
            }
        }
        let ghost old_side = side@;
        side.push(w);
        proof {
            assert(side@ =~= old_side.push(w));
            assert(side_marks(side@) =~= side_marks(old_side).push(tag));
            if matched {
                assert(side_marks(old_side).push(tag) + marks_of(
                    gt.skip(pos + 1),
                    gl.skip(li + 1),
                    miss,
                ) =~= side_marks(old_side) + marks_of(rest_t, rest_l, miss));
            } else {
                assert(side_marks(old_side).push(tag) + marks_of(gt.skip(pos + 1), rest_l, miss)
                    =~= side_marks(old_side) + marks_of(rest_t, rest_l, miss));
            }
        }
        if matched {
            li = li + 1;
        }
        pos = pos + 1;
    }
    proof {
        assert(gt.skip(gt.len() as int) =~= Seq::<Seq<char>>::empty());
        assert(side_marks(side@) + marks_of(
            Seq::<Seq<char>>::empty(),
            gl.skip(li as int),
            miss,
        ) =~= side_marks(side@));
    }
    side
}

/// Count the entries of a side carrying a tag.
fn count_tag(side: &Vec<WordDiff>, t: ChangeType) -> (c: usize)
    ensures
        c == count_marked(side_marks(side@), t),
{
    let ghost marks = side_marks(side@);
    let mut c: usize = 0;
    let mut k: usize = 0;
    proof {
        assert(marks.skip(0) =~= marks);
    }
    while k < side.len()
        invariant
            marks == side_marks(side@),
            k <= side@.len(),
            marks.len() == side@.len(),
            c <= k,
            count_marked(marks, t) == c + count_marked(marks.skip(k as int), t),
        decreases side@.len() - k,
    {
        proof {
            assert(marks.skip(k as int)[0] == marks[k as int]);
            assert(marks[k as int] == side@[k as int].change_type);
            assert(marks.skip(k as int).drop_first() =~= marks.skip(k + 1));
        }
        if side[k].change_type == t {
            c = c + 1;
        }
        k = k + 1;
    }
    proof {
        assert(marks.skip(side@.len() as int) =~= Seq::<ChangeType>::empty());
    }
    c
}

/// Word-level diff of a text pair via LCS alignment of the token
/// sequences. Identical inputs yield zero added and removed counts; fully
/// disjoint inputs mark every token on both sides as changed.
pub fn compute_word_diff(original: &str, transformed: &str) -> (r: TextDiff)
    ensures
        spec_diff_ok(r, original@, transformed@),
        r.added_count + r.removed_count <= original@.len() + transformed@.len(),
{
    let a = tokenize(original);
    let b = tokenize(transformed);
    let ghost ga = a.deep_view();
    let ghost gb = b.deep_view();
    let l = compute_lcs(&a, &b);
    let original_diff = mark_side(&a, &l, ChangeType::Removed);
    let transformed_diff = mark_side(&b, &l, ChangeType::Added);
    let added_count = count_tag(&transformed_diff, ChangeType::Added);
    let removed_count = count_tag(&original_diff, ChangeType::Removed);
    proof {
        lemma_spec_lcs_subseq(ga, gb);
        lemma_spec_lcs_len(ga, gb);
        lemma_lcs_len_bound(ga, gb);
        lemma_count_marks(ga, spec_lcs(ga, gb), ChangeType::Removed);
        lemma_count_marks(gb, spec_lcs(ga, gb), ChangeType::Added);
        lemma_matched_full(ga, spec_lcs(ga, gb));
        lemma_matched_full(gb, spec_lcs(ga, gb));
    }
    TextDiff { original_diff, transformed_diff, added_count, removed_count }
}

/// Idempotence: diffing a text against itself reports no additions and no
/// removals.
pub proof fn lemma_diff_identical(x: Seq<char>)
    ensures
        spec_added_count(x, x) == 0,
        spec_removed_count(x, x) == 0,
{
    lemma_lcs_len_self(spec_tokenize(x));
}

/// Symmetry: the tokens added going one way are exactly the tokens removed
/// going the other way, and vice versa.
pub proof fn lemma_diff_symmetric(a: Seq<char>, b: Seq<char>)
    ensures
        spec_added_count(a, b) == spec_removed_count(b, a),
        spec_removed_count(a, b) == spec_added_count(b, a),
{
    lemma_lcs_len_comm(spec_tokenize(a), spec_tokenize(b));
}

} // verus!
