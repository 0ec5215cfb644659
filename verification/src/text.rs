//! Tokenizer: splits a text into an ordered sequence of word-like units.
//!
//! A text containing at least one CJK ideograph is segmented with a
//! dictionary-based Chinese word-segmentation strategy; any other text is
//! split on whitespace runs, discarding empty tokens. No normalisation of
//! case or punctuation is performed.

use vstd::prelude::*;

use crate::chars::{is_cjk, is_cjk_char, is_space, is_space_char};

verus! {

/// Length of the leading run of non-whitespace characters.
pub open spec fn word_prefix_len(s: Seq<char>) -> nat
    decreases s.len(),
{
    if s.len() == 0 || is_space_char(s[0]) {
        0
    } else {
        1 + word_prefix_len(s.drop_first())
    }
}

pub proof fn lemma_word_prefix_len_bound(s: Seq<char>)
    ensures
        word_prefix_len(s) <= s.len(),
    decreases s.len(),
{
    if s.len() > 0 && !is_space_char(s[0]) {
        lemma_word_prefix_len_bound(s.drop_first());
    }
}

/// `word_prefix_len(s) == k` exactly when the first `k` characters are
/// non-whitespace and the run stops there.
pub proof fn lemma_word_prefix_len_exact(s: Seq<char>, k: int)
    requires
        0 <= k <= s.len(),
        forall|m: int| 0 <= m < k ==> !is_space_char(s[m]),
        k == s.len() || is_space_char(s[k]),
    ensures
        word_prefix_len(s) == k,
    decreases k,
{
    if k == 0 {
    } else {
        assert(!is_space_char(s[0]));
        lemma_word_prefix_len_exact(s.drop_first(), k - 1);
    }
}

/// The whitespace split of a text: the maximal non-whitespace runs, in
/// order, with all whitespace discarded.
pub open spec fn split_spaces(s: Seq<char>) -> Seq<Seq<char>>
    decreases s.len(),
        via split_spaces_decreases
{
    if s.len() == 0 {
        Seq::empty()
    } else if is_space_char(s[0]) {
        split_spaces(s.drop_first())
    } else {
        seq![s.take(word_prefix_len(s) as int)] + split_spaces(s.skip(word_prefix_len(s) as int))
    }
}

#[via_fn]
proof fn split_spaces_decreases(s: Seq<char>) {
    if s.len() > 0 && !is_space_char(s[0]) {
        lemma_word_prefix_len_bound(s);
    }
}

/// Whether the text contains at least one CJK ideograph, which selects the
/// script-aware segmentation strategy.
pub open spec fn has_cjk(s: Seq<char>) -> bool {
    exists|i: int| 0 <= i < s.len() && is_cjk_char(s[i])
}

/// The word segmentation that the dictionary-based Chinese segmenter yields
/// for a text; determined by the text alone.
pub uninterp spec fn cjk_segments(s: Seq<char>) -> Seq<Seq<char>>;

/// The token sequence of a text under the per-input strategy choice.
pub open spec fn spec_tokenize(s: Seq<char>) -> Seq<Seq<char>> {
    if has_cjk(s) {
        cjk_segments(s)
    } else {
        split_spaces(s)
    }
}

/// CJK ideograph scan over a whole text.
pub fn contains_cjk(text: &str) -> (r: bool)
    ensures
        r == has_cjk(text@),
{
    let n = text.unicode_len();
    let mut i: usize = 0;
    while i < n
        invariant
            n == text@.len(),
            i <= n,
            forall|m: int| 0 <= m < i ==> !is_cjk_char(text@[m]),
        decreases n - i,
    {
        if is_cjk(text.get_char(i)) {
            return true;
        }
        i += 1;
    }
    false
}

/// There are no more whitespace-split tokens than characters: every token
/// consumes at least one character.
pub proof fn lemma_split_spaces_count(s: Seq<char>)
    ensures
        split_spaces(s).len() <= s.len(),
    decreases s.len(),
{
    if s.len() == 0 {
    } else if is_space_char(s[0]) {
        lemma_split_spaces_count(s.drop_first());
    } else {
        let k = word_prefix_len(s) as int;
        lemma_word_prefix_len_bound(s);
        assert(k >= 1);
        lemma_split_spaces_count(s.skip(k));
    }
}

/// Relies on `jieba_rs::Jieba::cut` (with the embedded default dictionary and
/// HMM disabled) for dictionary-based Chinese word segmentation; its result
/// depends on the input text alone. Each emitted token is a non-empty span
/// of the input and the spans do not overlap, so there are no more tokens
/// than characters.
#[verifier::external_body]
fn segment_cjk(text: &str) -> (tokens: Vec<String>)
    ensures
        tokens.deep_view() == cjk_segments(text@),
        tokens@.len() <= text@.len(),
{
    let jieba = jieba_rs::Jieba::new();
    jieba.cut(text, false).into_iter().map(|t| t.word.to_string()).collect()
}

/// Whitespace split of a text into owned tokens.
pub fn split_whitespace_tokens(text: &str) -> (tokens: Vec<String>)
    ensures
        tokens.deep_view() == split_spaces(text@),
{
    let n = text.unicode_len();
    let mut tokens: Vec<String> = Vec::new();
    let mut i: usize = 0;
    proof {
        assert(text@.skip(0) =~= text@);
        assert(tokens.deep_view() + split_spaces(text@) =~= split_spaces(text@));
    }
    while i < n
        invariant
            n == text@.len(),
            i <= n,
            split_spaces(text@) == tokens.deep_view() + split_spaces(text@.skip(i as int)),
        decreases n - i,
    {
        let c = text.get_char(i);
        if is_space(c) {
            proof {
                assert(text@.skip(i as int).drop_first() =~= text@.skip(i + 1));
            }
            i = i + 1;
        } else {
            let start = i;
            let mut j = i + 1;
            while j < n && !is_space(text.get_char(j))
                invariant
                    n == text@.len(),
                    start < j <= n,
                    forall|m: int| start <= m < j ==> !is_space_char(text@[m]),
                decreases n - j,
            {
                j = j + 1;
            }
            let token = String::from_str(text.substring_char(start, j));
            proof {
                let rest = text@.skip(start as int);
                lemma_word_prefix_len_exact(rest, j - start);
                assert(rest.take(j - start) =~= text@.subrange(start as int, j as int));
                assert(rest.skip(j - start) =~= text@.skip(j as int));
                assert(split_spaces(rest) == seq![token@] + split_spaces(text@.skip(j as int)));
            }
            tokens.push(token);
            proof {
                assert(tokens.deep_view() =~= tokens.deep_view().subrange(
                    0,
                    tokens.deep_view().len() - 1,
                ) + seq![token@]);
            }
            i = j;
        }
    }
    proof {
        assert(text@.skip(n as int) =~= Seq::<char>::empty());
        assert(split_spaces(text@) =~= tokens.deep_view());
    }
    tokens
}

/// Tokenize a text: script-aware segmentation when it contains CJK
/// ideographs, whitespace splitting otherwise.
pub fn tokenize(text: &str) -> (tokens: Vec<String>)
    ensures
        tokens.deep_view() == spec_tokenize(text@),
        tokens@.len() <= text@.len(),
{
    if contains_cjk(text) {
        segment_cjk(text)
    } else {
        let tokens = split_whitespace_tokens(text);
        proof {
            lemma_split_spaces_count(text@);
        }
        tokens
    }
}

} // verus!
