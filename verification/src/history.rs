//! History store: an ordered, size-bounded log of transformation records
//! plus a per-day aggregate index.
//!
//! Entries are held most-recent-first. Every insertion may truncate the
//! tail to the configured capacity; the per-day aggregates are never
//! decremented on truncation (counters are monotonic until a full reset),
//! a deliberate trade-off kept for compatibility.

use vstd::prelude::*;
use vstd::pervasive::VecAdditionalExecFns;

use crate::date::{is_valid_date, prev_day, spec_back_days, spec_prev_day, Date, Timestamp};
use crate::diff::{
    compute_word_diff, spec_added_count, spec_diff_ok, spec_removed_count, TextDiff,
};
use crate::sentence::{count_sentences, lemma_count_sentences_bound, spec_count_sentences};

verus! {

/// One recorded transformation. Immutable once created; `word_count` is a
/// change-volume metric, `added_count + removed_count`, not a raw token
/// count.
#[derive(Debug, Clone)]
pub struct TransformationEntry {
    pub tone_name: String,
    pub original_text: String,
    pub transformed_text: String,
    pub timestamp: Timestamp,
    pub word_count: usize,
    pub sentence_count: usize,
    pub added_count: usize,
    pub removed_count: usize,
}

/// Aggregated totals for one calendar day with at least one entry.
#[derive(Debug, Clone, Copy, PartialEq, Eq, Structural)]
pub struct DayStats {
    pub date: Date,
    pub transformation_count: usize,
    pub word_count: usize,
    pub sentence_count: usize,
}

/// Summary statistics over the whole history.
#[derive(Debug, Clone, Copy, PartialEq, Eq, Structural)]
pub struct UsageSummary {
    pub total_transformations: usize,
    pub total_words_transformed: usize,
    pub total_sentences_transformed: usize,
    pub history_count: usize,
}

/// The error of a history query.
#[derive(Debug, Clone, Copy, PartialEq, Eq, Structural)]
pub enum HistoryError {
    IndexOutOfRange,
}

impl HistoryError {
    /// The display text of the error.
    pub fn message(&self) -> (r: String)
        ensures
            r@ == "Entry index out of bounds"@,
    {
        String::from_str("Entry index out of bounds")
    }
}

/// The ordered log of transformation records plus the per-day aggregate
/// index and the retention bound.
#[derive(Debug, Clone)]
pub struct TransformationHistory {
    /// Most-recent-first.
    pub entries: Vec<TransformationEntry>,
    /// One bucket per day that has seen an entry; dates are distinct.
    pub daily_stats: Vec<DayStats>,
    /// Retention bound on `entries`, enforced after every insertion.
    pub max_entries: Option<usize>,
}

/// A day's bucket after absorbing one entry.
pub open spec fn spec_bump(b: DayStats, e: TransformationEntry) -> DayStats {
    DayStats {
        date: b.date,
        transformation_count: (b.transformation_count + 1) as usize,
        word_count: (b.word_count + e.word_count) as usize,
        sentence_count: (b.sentence_count + e.sentence_count) as usize,
    }
}

/// The bucket's counters have room for the entry.
pub open spec fn bucket_fits(b: DayStats, e: TransformationEntry) -> bool {
    &&& b.transformation_count < usize::MAX
    &&& b.word_count + e.word_count <= usize::MAX
    &&& b.sentence_count + e.sentence_count <= usize::MAX
}

/// The fresh bucket of a day seeing its first entry.
pub open spec fn spec_new_bucket(e: TransformationEntry) -> DayStats {
    DayStats {
        date: e.timestamp.date,
        transformation_count: 1,
        word_count: e.word_count,
        sentence_count: e.sentence_count,
    }
}

/// The aggregate index after absorbing one entry: the bucket of the
/// entry's date is bumped in place, or a fresh bucket is appended.
pub open spec fn spec_upsert(stats: Seq<DayStats>, e: TransformationEntry) -> Seq<DayStats>
    decreases stats.len(),
{
    if stats.len() == 0 {
        seq![spec_new_bucket(e)]
    } else if stats[0].date == e.timestamp.date {
        seq![spec_bump(stats[0], e)] + stats.drop_first()
    } else {
        seq![stats[0]] + spec_upsert(stats.drop_first(), e)
    }
}

/// Whichever bucket will absorb the entry has room for it.
pub open spec fn spec_fits(stats: Seq<DayStats>, e: TransformationEntry) -> bool {
    forall|i: int|
        0 <= i < stats.len() && (#[trigger] stats[i]).date == e.timestamp.date ==> bucket_fits(
            stats[i],
            e,
        )
}

/// The log after enforcing the retention bound: the oldest entries are
/// dropped first.
pub open spec fn spec_truncated(
    entries: Seq<TransformationEntry>,
    max: Option<usize>,
) -> Seq<TransformationEntry> {
    match max {
        Option::Some(m) => if entries.len() > m {
            entries.take(m as int)
        } else {
            entries
        },
        Option::None => entries,
    }
}

/// Sum of `word_count` over the log.
pub open spec fn spec_total_words(entries: Seq<TransformationEntry>) -> int
    decreases entries.len(),
{
    if entries.len() == 0 {
        0
    } else {
        entries[0].word_count + spec_total_words(entries.drop_first())
    }
}

/// Sum of `sentence_count` over the log.
pub open spec fn spec_total_sentences(entries: Seq<TransformationEntry>) -> int
    decreases entries.len(),
{
    if entries.len() == 0 {
        0
    } else {
        entries[0].sentence_count + spec_total_sentences(entries.drop_first())
    }
}

pub proof fn lemma_total_words_nonneg(entries: Seq<TransformationEntry>)
    ensures
        spec_total_words(entries) >= 0,
    decreases entries.len(),
{
    if entries.len() > 0 {
        lemma_total_words_nonneg(entries.drop_first());
    }
}

pub proof fn lemma_total_sentences_nonneg(entries: Seq<TransformationEntry>)
    ensures
        spec_total_sentences(entries) >= 0,
    decreases entries.len(),
{
    if entries.len() > 0 {
        lemma_total_sentences_nonneg(entries.drop_first());
    }
}

/// The bucket of a date, or a zero-valued bucket for a day without one.
pub open spec fn spec_lookup_day(stats: Seq<DayStats>, d: Date) -> DayStats
    decreases stats.len(),
{
    if stats.len() == 0 {
        DayStats { date: d, transformation_count: 0, word_count: 0, sentence_count: 0 }
    } else if stats[0].date == d {
        stats[0]
    } else {
        spec_lookup_day(stats.drop_first(), d)
    }
}

/// How many entries of the log fall on a date.
pub open spec fn spec_date_count(entries: Seq<TransformationEntry>, d: Date) -> int
    decreases entries.len(),
{
    if entries.len() == 0 {
        0
    } else {
        (if entries[0].timestamp.date == d {
            1int
        } else {
            0int
        }) + spec_date_count(entries.drop_first(), d)
    }
}

/// Sum of `word_count` over the entries of a date.
pub open spec fn spec_date_words(entries: Seq<TransformationEntry>, d: Date) -> int
    decreases entries.len(),
{
    if entries.len() == 0 {
        0
    } else {
        (if entries[0].timestamp.date == d {
            entries[0].word_count as int
        } else {
            0int
        }) + spec_date_words(entries.drop_first(), d)
    }
}

/// Sum of `sentence_count` over the entries of a date.
pub open spec fn spec_date_sentences(entries: Seq<TransformationEntry>, d: Date) -> int
    decreases entries.len(),
{
    if entries.len() == 0 {
        0
    } else {
        (if entries[0].timestamp.date == d {
            entries[0].sentence_count as int
        } else {
            0int
        }) + spec_date_sentences(entries.drop_first(), d)
    }
}

/// Some bucket carries this date.
pub open spec fn spec_has_bucket(stats: Seq<DayStats>, d: Date) -> bool {
    exists|i: int| 0 <= i < stats.len() && (#[trigger] stats[i]).date == d
}

/// A date no entry falls on contributes nothing to any sum.
pub proof fn lemma_date_sums_zero(entries: Seq<TransformationEntry>, d: Date)
    requires
        forall|j: int| 0 <= j < entries.len() ==> (#[trigger] entries[j]).timestamp.date != d,
    ensures
        spec_date_count(entries, d) == 0,
        spec_date_words(entries, d) == 0,
        spec_date_sentences(entries, d) == 0,
    decreases entries.len(),
{
    if entries.len() > 0 {
        lemma_date_sums_zero(entries.drop_first(), d);
    }
}

impl TransformationHistory {
    /// Well-formedness: the aggregate index has at most one bucket per day.
    pub open spec fn wf(self) -> bool {
        forall|i: int, j: int|
            0 <= i < j < self.daily_stats@.len() ==> (#[trigger] self.daily_stats@[i]).date != (
            #[trigger] self.daily_stats@[j]).date
    }
}

/// The per-day aggregates agree exactly with the log: each bucket carries
/// the count and sums of the entries on its day, and every entry's day has
/// a bucket. Holds as long as no truncation has dropped entries.
pub open spec fn stats_match(h: TransformationHistory) -> bool {
    &&& forall|i: int|
        0 <= i < h.daily_stats@.len() ==> {
            let b = #[trigger] h.daily_stats@[i];
            b.transformation_count == spec_date_count(h.entries@, b.date) && b.word_count
                == spec_date_words(h.entries@, b.date) && b.sentence_count == spec_date_sentences(
                h.entries@,
                b.date,
            )
        }
    &&& forall|j: int|
        0 <= j < h.entries@.len() ==> spec_has_bucket(
            h.daily_stats@,
            (#[trigger] h.entries@[j]).timestamp.date,
        )
}

/// Upserting where the first matching bucket stands at `i` bumps exactly
/// that bucket.
pub proof fn lemma_upsert_found(stats: Seq<DayStats>, e: TransformationEntry, i: int)
    requires
        0 <= i < stats.len(),
        stats[i].date == e.timestamp.date,
        forall|m: int| 0 <= m < i ==> (#[trigger] stats[m]).date != e.timestamp.date,
    ensures
        spec_upsert(stats, e) == stats.update(i, spec_bump(stats[i], e)),
    decreases i,
{
    if i == 0 {
        assert(spec_upsert(stats, e) =~= stats.update(0, spec_bump(stats[0], e)));
    } else {
        assert(stats[0].date != e.timestamp.date);
        lemma_upsert_found(stats.drop_first(), e, i - 1);
        assert(seq![stats[0]] + stats.drop_first().update(i - 1, spec_bump(stats[i], e))
            =~= stats.update(i, spec_bump(stats[i], e)));
    }
}

/// Upserting with no matching bucket appends a fresh one.
pub proof fn lemma_upsert_missing(stats: Seq<DayStats>, e: TransformationEntry)
    requires
        forall|m: int| 0 <= m < stats.len() ==> (#[trigger] stats[m]).date != e.timestamp.date,
    ensures
        spec_upsert(stats, e) == stats.push(spec_new_bucket(e)),
    decreases stats.len(),
{
    if stats.len() == 0 {
        assert(spec_upsert(stats, e) =~= stats.push(spec_new_bucket(e)));
    } else {
        lemma_upsert_missing(stats.drop_first(), e);
        assert(seq![stats[0]] + stats.drop_first().push(spec_new_bucket(e)) =~= stats.push(
            spec_new_bucket(e),
        ));
    }
}

impl Default for TransformationHistory {
    /// A fresh history: empty log, empty aggregates, capacity 1000.
    fn default() -> (r: Self)
        ensures
            r.entries@.len() == 0,
            r.daily_stats@.len() == 0,
            r.max_entries == Some(1000usize),
            r.wf(),
            stats_match(r),
    {
        TransformationHistory {
            entries: Vec::new(),
            daily_stats: Vec::new(),
            max_entries: Some(1000),
        }
    }
}

impl TransformationHistory {
    /// Insert an entry at the front (most-recent-first), truncate the tail
    /// to the retention bound, and absorb the entry into its day's bucket.
    pub fn add_entry(&mut self, entry: TransformationEntry)
        requires
            old(self).wf(),
            spec_fits(old(self).daily_stats@, entry),
        ensures
            final(self).wf(),
            final(self).max_entries == old(self).max_entries,
            final(self).entries@ == spec_truncated(
                seq![entry] + old(self).entries@,
                old(self).max_entries,
            ),
            final(self).daily_stats@ == spec_upsert(old(self).daily_stats@, entry),
    {
        let ghost old_stats = self.daily_stats@;
        let d = entry.timestamp.date;
        let wc = entry.word_count;
        let sc = entry.sentence_count;

        self.entries.insert(0, entry);
        proof {
            assert(self.entries@ =~= seq![entry] + old(self).entries@);
        }
        match self.max_entries {
            Some(max) => {
                if self.entries.len() > max {
                    self.entries.truncate(max);
                }
            },
            None => {},
        }
        proof {
            assert(self.entries@ =~= spec_truncated(
                seq![entry] + old(self).entries@,
                old(self).max_entries,
            ));
        }

        let n = self.daily_stats.len();
        let mut idx: usize = 0;
        loop
            invariant
                n == self.daily_stats@.len(),
                idx <= n,
                self.daily_stats@ == old_stats,
                forall|m: int| 0 <= m < idx ==> (#[trigger] self.daily_stats@[m]).date != d,
            ensures
                idx <= n,
                self.daily_stats@ == old_stats,
                n == self.daily_stats@.len(),
                forall|m: int| 0 <= m < idx ==> (#[trigger] self.daily_stats@[m]).date != d,
                idx < n ==> self.daily_stats@[idx as int].date == d,
                idx == n ==> forall|m: int|
                    0 <= m < n ==> (#[trigger] self.daily_stats@[m]).date != d,
            decreases n - idx,
        {
            if idx >= n {
                break;
            }
            if self.daily_stats[idx].date == d {
                break;
            }
            idx = idx + 1;
        }

        if idx < self.daily_stats.len() {
            let b = self.daily_stats[idx];
            proof {
                assert(bucket_fits(b, entry));
            }
            self.daily_stats.set(
                idx,
                DayStats {
                    date: b.date,
                    transformation_count: b.transformation_count + 1,
                    word_count: b.word_count + wc,
                    sentence_count: b.sentence_count + sc,
                },
            );
            proof {
                lemma_upsert_found(old_stats, entry, idx as int);
                assert(self.daily_stats@ =~= old_stats.update(
                    idx as int,
                    spec_bump(old_stats[idx as int], entry),
                ));
            }
        } else {
            self.daily_stats.push(
                DayStats { date: d, transformation_count: 1, word_count: wc, sentence_count: sc },
            );
            proof {
                lemma_upsert_missing(old_stats, entry);
                assert(self.daily_stats@ =~= old_stats.push(spec_new_bucket(entry)));
            }
        }
    }

    /// The first `min(limit, len)` entries, most-recent-first.
    pub fn get_recent_entries(&self, limit: usize) -> (r: &[TransformationEntry])
        ensures
            r@ == self.entries@.take(
                if limit as int <= self.entries@.len() {
                    limit as int
                } else {
                    self.entries@.len() as int
                },
            ),
    {
        let end = if limit < self.entries.len() {
            limit
        } else {
            self.entries.len()
        };
        let r = vstd::slice::slice_subrange(self.entries.as_slice(), 0, end);
        proof {
            assert(r@ =~= self.entries@.take(
                if limit as int <= self.entries@.len() {
                    limit as int
                } else {
                    self.entries@.len() as int
                },
            ));
        }
        r
    }

    /// How many entries the log currently holds.
    pub fn get_total_transformations(&self) -> (r: usize)
        ensures
            r == self.entries@.len(),
    {
        self.entries.len()
    }

    /// Sum of `word_count` over the log.
    pub fn get_total_words_transformed(&self) -> (r: usize)
        requires
            spec_total_words(self.entries@) <= usize::MAX,
        ensures
            r == spec_total_words(self.entries@),
    {
        let ghost all = self.entries@;
        let mut acc: usize = 0;
        let mut i: usize = 0;
        proof {
            assert(all.skip(0) =~= all);
        }
        while i < self.entries.len()
            invariant
                all == self.entries@,
                i <= all.len(),
                spec_total_words(all) <= usize::MAX,
                acc + spec_total_words(all.skip(i as int)) == spec_total_words(all),
            decreases all.len() - i,
        {
            proof {
                assert(all.skip(i as int)[0] == all[i as int]);
                assert(all.skip(i as int).drop_first() =~= all.skip(i + 1));
                lemma_total_words_nonneg(all.skip(i + 1));
            }
            acc = acc + self.entries[i].word_count;
            i = i + 1;
        }
        proof {
            assert(all.skip(all.len() as int) =~= Seq::<TransformationEntry>::empty());
        }
        acc
    }

    /// Sum of `sentence_count` over the log.
    pub fn get_total_sentences_transformed(&self) -> (r: usize)
        requires
            spec_total_sentences(self.entries@) <= usize::MAX,
        ensures
            r == spec_total_sentences(self.entries@),
    {
        let ghost all = self.entries@;
        let mut acc: usize = 0;
        let mut i: usize = 0;
        proof {
            assert(all.skip(0) =~= all);
        }
        while i < self.entries.len()
            invariant
                all == self.entries@,
                i <= all.len(),
                spec_total_sentences(all) <= usize::MAX,
                acc + spec_total_sentences(all.skip(i as int)) == spec_total_sentences(all),
            decreases all.len() - i,
        {
            proof {
                assert(all.skip(i as int)[0] == all[i as int]);
                assert(all.skip(i as int).drop_first() =~= all.skip(i + 1));
                lemma_total_sentences_nonneg(all.skip(i + 1));
            }
            acc = acc + self.entries[i].sentence_count;
            i = i + 1;
        }
        proof {
            assert(all.skip(all.len() as int) =~= Seq::<TransformationEntry>::empty());
        }
        acc
    }

    /// Empty both the log and the aggregate index.
    pub fn clear_history(&mut self)
        ensures
            final(self).entries@.len() == 0,
            final(self).daily_stats@.len() == 0,
            final(self).max_entries == old(self).max_entries,
            final(self).wf(),
            stats_match(*final(self)),
    {
        self.entries.clear();
        self.daily_stats.clear();
    }

    /// Summary statistics over the whole history.
    pub fn get_usage_summary(&self) -> (r: UsageSummary)
        requires
            spec_total_words(self.entries@) <= usize::MAX,
            spec_total_sentences(self.entries@) <= usize::MAX,
        ensures
            r.total_transformations == self.entries@.len(),
            r.total_words_transformed == spec_total_words(self.entries@),
            r.total_sentences_transformed == spec_total_sentences(self.entries@),
            r.history_count == self.entries@.len(),
    {
        UsageSummary {
            total_transformations: self.get_total_transformations(),
            total_words_transformed: self.get_total_words_transformed(),
            total_sentences_transformed: self.get_total_sentences_transformed(),
            history_count: self.get_total_transformations(),
        }
    }

    /// The bucket of a date, or a zero-valued bucket for a day without one.
    pub fn lookup_day(&self, d: Date) -> (r: DayStats)
        ensures
            r == spec_lookup_day(self.daily_stats@, d),
    {
        let ghost stats = self.daily_stats@;
        let n = self.daily_stats.len();
        let mut i: usize = 0;
        proof {
            assert(stats.skip(0) =~= stats);
        }
        while i < n
            invariant
                stats == self.daily_stats@,
                n == stats.len(),
                i <= n,
                spec_lookup_day(stats, d) == spec_lookup_day(stats.skip(i as int), d),
            decreases n - i,
        {
            proof {
                assert(stats.skip(i as int)[0] == stats[i as int]);
                assert(stats.skip(i as int).drop_first() =~= stats.skip(i + 1));
            }
            if self.daily_stats[i].date == d {
                return self.daily_stats[i];
            }
            i = i + 1;
        }
        proof {
            assert(stats.skip(n as int) =~= Seq::<DayStats>::empty());
        }
        DayStats { date: d, transformation_count: 0, word_count: 0, sentence_count: 0 }
    }

    /// Per-day statistics for the last `days` calendar days ending `today`,
    /// oldest first; a day without a bucket yields a zero-valued one. The
    /// output length is always exactly `days`.
    pub fn get_daily_stats(&self, days: usize, today: Date) -> (r: Vec<DayStats>)
        requires
            is_valid_date(today),
        ensures
            r@.len() == days as int,
            forall|i: int|
                0 <= i < days ==> r@[i] == spec_lookup_day(
                    self.daily_stats@,
                    spec_back_days(today, (days - 1 - i) as nat),
                ),
    {
        let ghost stats = self.daily_stats@;
        let mut tmp: Vec<DayStats> = Vec::new();
        let mut cursor = today;
        let mut k: usize = 0;
        while k < days
            invariant
                stats == self.daily_stats@,
                k <= days,
                is_valid_date(cursor),
                cursor == spec_back_days(today, k as nat),
                tmp@.len() == k,
                forall|i: int|
                    0 <= i < k ==> tmp@[i] == spec_lookup_day(stats, spec_back_days(today, i as nat)),
            decreases days - k,
        {
            let b = self.lookup_day(cursor);
            tmp.push(b);
            cursor = prev_day(cursor);
            proof {
                assert(spec_back_days(today, (k + 1) as nat) == spec_prev_day(
                    spec_back_days(today, k as nat),
                ));
            }
            k = k + 1;
        }

        let mut r: Vec<DayStats> = Vec::new();
        let mut left = days;
        while left > 0
            invariant
                tmp@.len() == days,
                left <= days,
                r@.len() == days - left,
                forall|i: int| 0 <= i < days - left ==> r@[i] == tmp@[days - 1 - i],
            decreases left,
        {
            left = left - 1;
            r.push(tmp[left]);
        }
        r
    }

    /// Re-derive the word diff of the entry at `entry_index` from its
    /// stored texts; an index at or past the end of the log is rejected.
    pub fn get_transformation_diff(&self, entry_index: usize) -> (r: Result<
        TextDiff,
        HistoryError,
    >)
        ensures
            (r is Err) <==> entry_index >= self.entries@.len(),
            r is Err ==> r == Result::<TextDiff, HistoryError>::Err(HistoryError::IndexOutOfRange),
            r matches Ok(d) ==> spec_diff_ok(
                d,
                self.entries@[entry_index as int].original_text@,
                self.entries@[entry_index as int].transformed_text@,
            ),
    {
        if entry_index >= self.entries.len() {
            return Err(HistoryError::IndexOutOfRange);
        }
        let e = &self.entries[entry_index];
        Ok(compute_word_diff(e.original_text.as_str(), e.transformed_text.as_str()))
    }
}

/// The entry that recording a transformation appends: the texts as handed
/// in, the diff tallies of the pair, and the sentence count of the result.
pub open spec fn spec_new_entry(
    tone_name: String,
    original: String,
    transformed: String,
    timestamp: Timestamp,
) -> TransformationEntry {
    TransformationEntry {
        tone_name,
        original_text: original,
        transformed_text: transformed,
        timestamp,
        word_count: (spec_added_count(original@, transformed@) + spec_removed_count(
            original@,
            transformed@,
        )) as usize,
        sentence_count: spec_count_sentences(transformed@) as usize,
        added_count: spec_added_count(original@, transformed@) as usize,
        removed_count: spec_removed_count(original@, transformed@) as usize,
    }
}

impl TransformationHistory {
    /// Record one transformation: compute its diff tallies and sentence
    /// count, build the entry, and add it to the log. Callers must leave
    /// room in the receiving day's counters for the worst-case increments
    /// (bounded by the text lengths).
    pub fn add_transformation(
        &mut self,
        tone_name: String,
        original: String,
        transformed: String,
        timestamp: Timestamp,
    )
        requires
            old(self).wf(),
            original@.len() + transformed@.len() <= usize::MAX,
            forall|i: int|
                0 <= i < old(self).daily_stats@.len() && (#[trigger] old(
                    self,
                ).daily_stats@[i]).date == timestamp.date ==> old(
                    self,
                ).daily_stats@[i].transformation_count < usize::MAX && old(
                    self,
                ).daily_stats@[i].word_count + original@.len() + transformed@.len() <= usize::MAX
                    && old(self).daily_stats@[i].sentence_count + transformed@.len() <= usize::MAX,
        ensures
            final(self).wf(),
            final(self).max_entries == old(self).max_entries,
            final(self).entries@ == spec_truncated(
                seq![spec_new_entry(tone_name, original, transformed, timestamp)] + old(
                    self,
                ).entries@,
                old(self).max_entries,
            ),
            final(self).daily_stats@ == spec_upsert(
                old(self).daily_stats@,
                spec_new_entry(tone_name, original, transformed, timestamp),
            ),
    {
        let diff = compute_word_diff(original.as_str(), transformed.as_str());
        let word_count = diff.added_count + diff.removed_count;
        let sentence_count = count_sentences(transformed.as_str());
        proof {
            lemma_count_sentences_bound(transformed@);
        }
        let entry = TransformationEntry {
            tone_name,
            original_text: original,
            transformed_text: transformed,
            timestamp,
            word_count,
            sentence_count,
            added_count: diff.added_count,
            removed_count: diff.removed_count,
        };
        proof {
            assert(entry == spec_new_entry(tone_name, original, transformed, timestamp));
            assert(spec_fits(self.daily_stats@, entry));
        }
        self.add_entry(entry);
    }
}

/// Retention: enforcing a capacity never leaves more than `max` entries;
/// adding to a log already at capacity keeps it exactly at capacity, an
/// insertion below capacity drops nothing, and whenever the capacity is
/// non-zero the entry just added stands first.
pub proof fn lemma_retention(entries: Seq<TransformationEntry>, e: TransformationEntry, max: usize)
    ensures
        spec_truncated(seq![e] + entries, Some(max)).len() <= max as int,
        entries.len() >= max ==> spec_truncated(seq![e] + entries, Some(max)).len() == max as int,
        entries.len() < max ==> spec_truncated(seq![e] + entries, Some(max)) == seq![e] + entries,
        max > 0 ==> spec_truncated(seq![e] + entries, Some(max))[0] == e,
{
}

/// Daily aggregation: absorbing an entry into the aggregate index keeps
/// every bucket equal to the count and sums of its day's entries, as long
/// as the insertion did not truncate the log.
pub proof fn lemma_daily_aggregation(
    h: TransformationHistory,
    h2: TransformationHistory,
    e: TransformationEntry,
)
    requires
        h.wf(),
        stats_match(h),
        spec_fits(h.daily_stats@, e),
        h2.entries@ == seq![e] + h.entries@,
        h2.daily_stats@ == spec_upsert(h.daily_stats@, e),
    ensures
        stats_match(h2),
{
    let stats = h.daily_stats@;
    let d = e.timestamp.date;
    assert((seq![e] + h.entries@).drop_first() =~= h.entries@);
    assert(h2.entries@[0] == e);
    if spec_has_bucket(stats, d) {
        let i = choose|i: int| 0 <= i < stats.len() && (#[trigger] stats[i]).date == d;
        assert forall|m: int| 0 <= m < i implies (#[trigger] stats[m]).date != d by {
            if stats[m].date == d {
                assert(stats[m].date != stats[i].date);
            }
        }
        lemma_upsert_found(stats, e, i);
        assert forall|k: int| 0 <= k < h2.daily_stats@.len() implies {
            let b = #[trigger] h2.daily_stats@[k];
            b.transformation_count == spec_date_count(h2.entries@, b.date) && b.word_count
                == spec_date_words(h2.entries@, b.date) && b.sentence_count == spec_date_sentences(
                h2.entries@,
                b.date,
            )
        } by {
            let b = h2.daily_stats@[k];
            if k == i {
                assert(b == spec_bump(stats[i], e));
                assert(spec_date_count(h2.entries@, d) == 1 + spec_date_count(h.entries@, d));
                assert(spec_date_words(h2.entries@, d) == e.word_count + spec_date_words(
                    h.entries@,
                    d,
                ));
                assert(spec_date_sentences(h2.entries@, d) == e.sentence_count
                    + spec_date_sentences(h.entries@, d));
            } else {
                assert(b == stats[k]);
                assert(b.date != d);
                assert(spec_date_count(h2.entries@, b.date) == spec_date_count(
                    h.entries@,
                    b.date,
                ));
                assert(spec_date_words(h2.entries@, b.date) == spec_date_words(
                    h.entries@,
                    b.date,
                ));
                assert(spec_date_sentences(h2.entries@, b.date) == spec_date_sentences(
                    h.entries@,
                    b.date,
                ));
            }
        }
        assert forall|j: int| 0 <= j < h2.entries@.len() implies spec_has_bucket(
            h2.daily_stats@,
            (#[trigger] h2.entries@[j]).timestamp.date,
        ) by {
            if j == 0 {
                assert(h2.daily_stats@[i].date == d);
            } else {
                let dj = h.entries@[j - 1].timestamp.date;
                assert(spec_has_bucket(stats, dj));
                let w = choose|w: int| 0 <= w < stats.len() && (#[trigger] stats[w]).date == dj;
                assert(h2.daily_stats@[w].date == dj);
            }
        }
    } else {
        assert forall|m: int| 0 <= m < stats.len() implies (#[trigger] stats[m]).date != d by {}
        lemma_upsert_missing(stats, e);
        lemma_date_sums_zero_from_match(h, d);
        assert forall|k: int| 0 <= k < h2.daily_stats@.len() implies {
            let b = #[trigger] h2.daily_stats@[k];
            b.transformation_count == spec_date_count(h2.entries@, b.date) && b.word_count
                == spec_date_words(h2.entries@, b.date) && b.sentence_count == spec_date_sentences(
                h2.entries@,
                b.date,
            )
        } by {
            let b = h2.daily_stats@[k];
            if k == stats.len() {
                assert(b == spec_new_bucket(e));
                assert(spec_date_count(h2.entries@, d) == 1 + spec_date_count(h.entries@, d));
                assert(spec_date_words(h2.entries@, d) == e.word_count + spec_date_words(
                    h.entries@,
                    d,
                ));
                assert(spec_date_sentences(h2.entries@, d) == e.sentence_count
                    + spec_date_sentences(h.entries@, d));
            } else {
                assert(b == stats[k]);
                assert(b.date != d);
                assert(spec_date_count(h2.entries@, b.date) == spec_date_count(
                    h.entries@,
                    b.date,
                ));
                assert(spec_date_words(h2.entries@, b.date) == spec_date_words(
                    h.entries@,
                    b.date,
                ));
                assert(spec_date_sentences(h2.entries@, b.date) == spec_date_sentences(
                    h.entries@,
                    b.date,
                ));
            }
        }
        assert forall|j: int| 0 <= j < h2.entries@.len() implies spec_has_bucket(
            h2.daily_stats@,
            (#[trigger] h2.entries@[j]).timestamp.date,
        ) by {
            if j == 0 {
                assert(h2.daily_stats@[stats.len() as int].date == d);
            } else {
                let dj = h.entries@[j - 1].timestamp.date;
                assert(spec_has_bucket(stats, dj));
                let w = choose|w: int| 0 <= w < stats.len() && (#[trigger] stats[w]).date == dj;
                assert(h2.daily_stats@[w].date == dj);
            }
        }
    }
}

/// In a matching history, a date without a bucket has no entries, so its
/// sums are zero.
proof fn lemma_date_sums_zero_from_match(h: TransformationHistory, d: Date)
    requires
        stats_match(h),
        !spec_has_bucket(h.daily_stats@, d),
    ensures
        spec_date_count(h.entries@, d) == 0,
        spec_date_words(h.entries@, d) == 0,
        spec_date_sentences(h.entries@, d) == 0,
{
    assert forall|j: int| 0 <= j < h.entries@.len() implies (#[trigger] h.entries@[j]).timestamp.date
        != d by {
        if h.entries@[j].timestamp.date == d {
            assert(spec_has_bucket(h.daily_stats@, d));
        }
    }
    lemma_date_sums_zero(h.entries@, d);
}

} // verus!
