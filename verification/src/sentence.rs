//! Sentence segmenter: counts sentence boundaries in a text.
//!
//! The scan walks code points left to right; a sentence-ending mark counts
//! one boundary and then the scan skips any immediately following
//! whitespace or further sentence-ending marks, so a run like `"!!!"` or
//! `"... "` counts exactly once. Text without terminal punctuation still
//! counts as one sentence unless it is empty or whitespace-only.

use vstd::prelude::*;

use crate::chars::{is_sentence_end, is_sentence_end_char, is_space, is_space_char};

verus! {

/// Every character is whitespace (vacuously true of the empty text).
pub open spec fn all_space(s: Seq<char>) -> bool {
    forall|i: int| 0 <= i < s.len() ==> is_space_char(s[i])
}

/// Length of the leading run of whitespace or sentence-ending marks: the
/// characters a counted boundary swallows.
pub open spec fn skip_run_len(s: Seq<char>) -> nat
    decreases s.len(),
{
    if s.len() > 0 && (is_space_char(s[0]) || is_sentence_end_char(s[0])) {
        1 + skip_run_len(s.drop_first())
    } else {
        0
    }
}

pub proof fn lemma_skip_run_len_bound(s: Seq<char>)
    ensures
        skip_run_len(s) <= s.len(),
    decreases s.len(),
{
    if s.len() > 0 && (is_space_char(s[0]) || is_sentence_end_char(s[0])) {
        lemma_skip_run_len_bound(s.drop_first());
    }
}

/// `skip_run_len(s) == k` exactly when the first `k` characters are
/// whitespace or sentence-ending marks and the run stops there.
pub proof fn lemma_skip_run_len_exact(s: Seq<char>, k: int)
    requires
        0 <= k <= s.len(),
        forall|m: int| 0 <= m < k ==> is_space_char(s[m]) || is_sentence_end_char(s[m]),
        k == s.len() || (!is_space_char(s[k]) && !is_sentence_end_char(s[k])),
    ensures
        skip_run_len(s) == k,
    decreases k,
{
    if k == 0 {
    } else {
        assert(is_space_char(s[0]) || is_sentence_end_char(s[0]));
        lemma_skip_run_len_exact(s.drop_first(), k - 1);
    }
}

/// Number of sentence boundaries the scan finds: each sentence-ending mark
/// counts once and swallows the run that follows it.
pub open spec fn boundary_count(s: Seq<char>) -> nat
    decreases s.len(),
        via boundary_count_decreases
{
    if s.len() == 0 {
        0
    } else if is_sentence_end_char(s[0]) {
        1 + boundary_count(s.skip(1 + skip_run_len(s.skip(1)) as int))
    } else {
        boundary_count(s.drop_first())
    }
}

#[via_fn]
proof fn boundary_count_decreases(s: Seq<char>) {
    if s.len() > 0 && is_sentence_end_char(s[0]) {
        lemma_skip_run_len_bound(s.skip(1));
    }
}

pub proof fn lemma_boundary_count_bound(s: Seq<char>)
    ensures
        boundary_count(s) <= s.len(),
    decreases s.len(),
{
    if s.len() == 0 {
    } else if is_sentence_end_char(s[0]) {
        lemma_skip_run_len_bound(s.skip(1));
        lemma_boundary_count_bound(s.skip(1 + skip_run_len(s.skip(1)) as int));
    } else {
        lemma_boundary_count_bound(s.drop_first());
    }
}

/// The sentence count of a text: 0 when empty or whitespace-only, the
/// boundary count otherwise, with a floor of one sentence.
pub open spec fn spec_count_sentences(s: Seq<char>) -> nat {
    if all_space(s) {
        0
    } else if boundary_count(s) == 0 {
        1
    } else {
        boundary_count(s)
    }
}

/// Sentence counting floor: a text with any non-whitespace character has
/// at least one sentence; an empty or whitespace-only text has none.
pub proof fn lemma_sentence_floor(s: Seq<char>)
    ensures
        !all_space(s) ==> spec_count_sentences(s) >= 1,
        all_space(s) ==> spec_count_sentences(s) == 0,
{
}

/// A text never has more sentences than characters.
pub proof fn lemma_count_sentences_bound(s: Seq<char>)
    ensures
        spec_count_sentences(s) <= s.len(),
{
    lemma_boundary_count_bound(s);
    if !all_space(s) {
        assert(s.len() > 0);
    }
}

/// Count the sentences of a text in a single left-to-right pass, treating
/// half-width and full-width punctuation uniformly.
pub fn count_sentences(text: &str) -> (c: usize)
    ensures
        c == spec_count_sentences(text@),
{
    let n = text.unicode_len();

    let mut any_content = false;
    let mut k: usize = 0;
    while k < n
        invariant
            n == text@.len(),
            k <= n,
            any_content == !(forall|m: int| 0 <= m < k ==> is_space_char(text@[m])),
        decreases n - k,
    {
        if !is_space(text.get_char(k)) {
            any_content = true;
        }
        k = k + 1;
    }
    if !any_content {
        return 0;
    }

    let mut count: usize = 0;
    let mut i: usize = 0;
    proof {
        assert(text@.skip(0) =~= text@);
        lemma_boundary_count_bound(text@);
    }
    while i < n
        invariant
            n == text@.len(),
            i <= n,
            count + boundary_count(text@.skip(i as int)) == boundary_count(text@),
            boundary_count(text@) <= n,
        decreases n - i,
    {
        let c0 = text.get_char(i);
        if is_sentence_end(c0) {
            let ghost rest = text@.skip(i as int);
            let mut j = i + 1;
            loop
                invariant
                    n == text@.len(),
                    i < j <= n,
                    forall|m: int|
                        i + 1 <= m < j ==> is_space_char(text@[m]) || is_sentence_end_char(
                            text@[m],
                        ),
                ensures
                    i < j <= n,
                    forall|m: int|
                        i + 1 <= m < j ==> is_space_char(text@[m]) || is_sentence_end_char(
                            text@[m],
                        ),
                    j == n || (!is_space_char(text@[j as int]) && !is_sentence_end_char(
                        text@[j as int],
                    )),
                decreases n - j,
            {
                if j >= n {
                    break;
                }
                let cj = text.get_char(j);
                if !(is_space(cj) || is_sentence_end(cj)) {
                    break;
                }
                j = j + 1;
            }
            proof {
                let tail = text@.skip(i + 1);
                lemma_skip_run_len_exact(tail, j - (i + 1));
                assert(rest[0] == text@[i as int]);
                assert(rest.skip(1) =~= tail);
                assert(boundary_count(rest) == 1 + boundary_count(
                    rest.skip(1 + skip_run_len(rest.skip(1)) as int),
                ));
                assert(rest.skip(1 + (j - (i + 1))) =~= text@.skip(j as int));
            }
            count = count + 1;
            i = j;
        } else {
            proof {
                assert(text@.skip(i as int)[0] == text@[i as int]);
                assert(text@.skip(i as int).drop_first() =~= text@.skip(i + 1));
            }
            i = i + 1;
        }
    }
    proof {
        assert(text@.skip(n as int) =~= Seq::<char>::empty());
    }
    if count == 0 {
        1
    } else {
        count
    }
}

} // verus!
