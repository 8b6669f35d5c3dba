//! Batch scheduling for one document's conversion run.
//!
//! A [`BatchScheduler`] owns the pages still to convert, the growing output
//! document, and the commit discipline: pages are grouped into batches of at
//! most `pages_per_batch`, in ascending order, and after each batch's text
//! arrives the output is extended and the checkpoint watermark advances to
//! one past the batch's last page.  Once every scheduled page is committed,
//! the separate completion step [`BatchScheduler::complete`] removes the
//! document's checkpoint record.
//!
//! The surrounding program drives the loop: it extracts and converts the
//! pages of [`BatchScheduler::current_batch`], calls
//! [`BatchScheduler::commit_batch`], then durably writes the output text and
//! the checkpoint store; after the last batch it calls
//! [`BatchScheduler::complete`] and persists the store once more.  A run
//! that dies mid-batch loses only that batch.
//!
//! Resume rules, applied by [`BatchScheduler::start`]:
//! - a checkpoint record supplies the watermark `w`; explicit selections are
//!   filtered to pages `>= w`, a defaulted selection becomes `[w, total)`;
//! - no record but an existing output file means the document was fully
//!   converted earlier (completion removes the record), so nothing is
//!   scheduled and the output is left untouched;
//! - an empty effective set removes any leftover record and schedules
//!   nothing.

use crate::assembler::append_markdown;
use crate::assembler::spec_append;
use crate::checkpoint::ProcessingProgress;
use crate::checkpoint::ProgressTracker;
use crate::error::NotedError;
use crate::resolver::strictly_increasing;
use vstd::prelude::*;

verus! {

/// The hard ceiling on the configured batch size.
pub const MAX_PAGES_PER_BATCH: u32 = 30;

/// Validate the configured batch bound at the boundary.
pub fn check_pages_per_batch(pages_per_batch: u32) -> (r: Result<(), NotedError>)
    ensures
        r is Ok <==> pages_per_batch <= MAX_PAGES_PER_BATCH,
        r matches Err(e) ==> e matches NotedError::BatchSizeTooLarge(n) && n == pages_per_batch,
{
    if pages_per_batch > MAX_PAGES_PER_BATCH {
        Err(NotedError::BatchSizeTooLarge(pages_per_batch))
    } else {
        Ok(())
    }
}

/// The watermark recorded for `doc`: all pages strictly below it are
/// durably converted; `0` when no record exists.
pub open spec fn watermark_of(m: Map<Seq<char>, ProcessingProgress>, doc: Seq<char>) -> u32 {
    if m.contains_key(doc) {
        m[doc].last_processed_page
    } else {
        0
    }
}

/// The elements of `s` that are at least `w`, in order.
pub open spec fn filter_ge(s: Seq<u32>, w: u32) -> Seq<u32>
    decreases s.len(),
{
    if s.len() == 0 {
        Seq::empty()
    } else if s.last() >= w {
        filter_ge(s.drop_last(), w).push(s.last())
    } else {
        filter_ge(s.drop_last(), w)
    }
}

/// The contiguous page range `[w, total)`.
pub open spec fn range_from(w: u32, total: u32) -> Seq<u32> {
    if w >= total {
        Seq::empty()
    } else {
        Seq::new((total - w) as nat, |i: int| (w + i) as u32)
    }
}

/// The pages a run must still convert, given the checkpoint store, the
/// requested selection (none meaning "all pages"), and whether an output
/// file already exists.  No record together with an existing output means
/// the document completed in an earlier run.
pub open spec fn effective_pages(
    m: Map<Seq<char>, ProcessingProgress>,
    doc: Seq<char>,
    requested: Option<Seq<u32>>,
    total: u32,
    output_exists: bool,
) -> Seq<u32> {
    if !m.contains_key(doc) && output_exists {
        Seq::empty()
    } else {
        let w = watermark_of(m, doc);
        match requested {
            Some(s) => filter_ge(s, w),
            None => range_from(w, total),
        }
    }
}

/// The requested selection as a sequence, if one was given.
pub open spec fn requested_view(o: Option<Vec<u32>>) -> Option<Seq<u32>> {
    match o {
        Some(v) => Some(v@),
        None => None,
    }
}

/// The abstract state of a scheduler.
pub struct SchedulerView {
    /// The document id the run is for.
    pub doc: Seq<char>,
    /// The document's page count.
    pub total_pages: u32,
    /// The effective pages of the run, ascending.
    pub pages: Seq<u32>,
    /// How many of `pages` are committed.
    pub committed: int,
    /// The assembled output text so far.
    pub content: Seq<char>,
    /// The batch-size bound.
    pub bound: u32,
}

impl SchedulerView {
    /// Well-formedness of a scheduler state.
    pub open spec fn wf(self) -> bool {
        &&& 0 <= self.committed <= self.pages.len()
        &&& 1 <= self.bound
        &&& strictly_increasing(self.pages)
        &&& forall|i: int| 0 <= i < self.pages.len() ==> self.pages[i] < self.total_pages
    }

    /// All effective pages are committed.
    pub open spec fn finished(self) -> bool {
        self.committed == self.pages.len()
    }

    /// Where the current batch ends: at most `bound` pages past `committed`.
    pub open spec fn batch_end(self) -> int {
        if self.committed + self.bound <= self.pages.len() {
            self.committed + self.bound
        } else {
            self.pages.len() as int
        }
    }

    /// The pages of the current batch.
    pub open spec fn current_batch(self) -> Seq<u32> {
        self.pages.subrange(self.committed, self.batch_end())
    }

    /// The last page of the current batch.
    pub open spec fn batch_last(self) -> u32 {
        self.pages[self.batch_end() - 1]
    }
}

/// The checkpoint store after committing the current batch of `v`: the
/// watermark advances to one past the batch's last page.  (Removing the
/// record once the whole selection is processed is a separate completion
/// step, [`BatchScheduler::complete`].)
pub open spec fn tracker_after_commit(
    m: Map<Seq<char>, ProcessingProgress>,
    v: SchedulerView,
) -> Map<Seq<char>, ProcessingProgress> {
    m.insert(
        v.doc,
        ProcessingProgress {
            last_processed_page: (v.batch_last() + 1) as u32,
            total_pages: v.total_pages,
        },
    )
}

/// A single document's scheduled conversion run.
pub struct BatchScheduler {
    document_id: String,
    total_pages: u32,
    pages: Vec<u32>,
    pos: usize,
    pages_per_batch: u32,
    content: String,
}

impl View for BatchScheduler {
    type V = SchedulerView;

    closed spec fn view(&self) -> SchedulerView {
        SchedulerView {
            doc: self.document_id@,
            total_pages: self.total_pages,
            pages: self.pages@,
            committed: self.pos as int,
            content: self.content@,
            bound: self.pages_per_batch,
        }
    }
}

impl BatchScheduler {
    /// Plan a run: read the watermark, compute the effective page set, and
    /// schedule it; or report that there is nothing to do (`None`), removing
    /// a leftover checkpoint record if the document is (now) complete.
    ///
    /// `existing_output` is the recovered content of the output file, or
    /// none if no output file exists yet.
    pub fn start(
        document_id: String,
        total_pages: u32,
        requested: Option<Vec<u32>>,
        pages_per_batch: u32,
        existing_output: Option<String>,
        tracker: &mut ProgressTracker,
    ) -> (r: Option<BatchScheduler>)
        requires
            1 <= pages_per_batch,
            old(tracker).wf(),
            requested matches Some(v) ==> strictly_increasing(v@) && (forall|i: int|
                0 <= i < v@.len() ==> v@[i] < total_pages),
        ensures
            final (tracker).wf(),
            ({
                let eff = effective_pages(
                    old(tracker)@,
                    document_id@,
                    requested_view(requested),
                    total_pages,
                    existing_output is Some,
                );
                match r {
                    None => {
                        &&& eff.len() == 0
                        &&& final (tracker)@ == old(tracker)@.remove(document_id@)
                    },
                    Some(s) => {
                        &&& eff.len() > 0
                        &&& final (tracker)@ == old(tracker)@
                        &&& s@.wf()
                        &&& !s@.finished()
                        &&& s@.doc == document_id@
                        &&& s@.total_pages == total_pages
                        &&& s@.pages == eff
                        &&& s@.committed == 0
                        &&& s@.bound == pages_per_batch
                        &&& s@.content == (match existing_output {
                            Some(t) => t@,
                            None => Seq::<char>::empty(),
                        })
                        &&& watermark_of(old(tracker)@, document_id@) <= s@.batch_last() + 1
                    },
                }
            }),
    {
        let w: u32 = match tracker.get_progress(document_id.as_str()) {
            Some(p) => p.last_processed_page,
            None => {
                if existing_output.is_some() {
                    proof {
                        assert(old(tracker)@.remove(document_id@) =~= old(tracker)@);
                    }
                    return None;
                }
                0
            },
        };
        let pages: Vec<u32> = match requested {
            Some(req) => {
                let mut out: Vec<u32> = Vec::new();
                let len = req.len();
                let mut i: usize = 0;
                while i < len
                    invariant
                        i <= len,
                        len == req@.len(),
                        strictly_increasing(req@),
                        forall|k: int| 0 <= k < len ==> req@[k] < total_pages,
                        out@ == filter_ge(req@.take(i as int), w),
                        strictly_increasing(out@),
                        forall|j: int| 0 <= j < out@.len() ==> w <= #[trigger] out@[j]
                            < total_pages,
                        out@.len() > 0 ==> exists|k: int|
                            0 <= k < i && req@[k] == out@.last(),
                    decreases len - i,
                {
                    proof {
                        assert(req@.take(i + 1).drop_last() =~= req@.take(i as int));
                        assert(req@.take(i + 1).last() == req@[i as int]);
                    }
                    let p = req[i];
                    if p >= w {
                        proof {
                            if out@.len() > 0 {
                                let k = choose|k: int| 0 <= k < i && req@[k] == out@.last();
                                assert(req@[k] < req@[i as int]);
                            }
                            let ghost out1 = out@.push(p);
                            assert forall|x: int, y: int|
                                0 <= x < y < out1.len() implies out1[x] < out1[y] by {
                                if y < out1.len() - 1 {
                                    assert(out1[x] == out@[x] && out1[y] == out@[y]);
                                } else if x < out1.len() - 1 {
                                    assert(out1[x] == out@[x]);
                                    assert(out@[x] == out@.last() || out@[x] < out@.last());
                                }
                            }
                        }
                        out.push(p);
                    }
                    i += 1;
                }
                proof {
                    assert(req@.take(len as int) =~= req@);
                }
                out
            },
            None => {
                let mut out: Vec<u32> = Vec::new();
                let mut p: u32 = w;
                while p < total_pages
                    invariant
                        w <= p <= total_pages || (p == w && w >= total_pages),
                        out@.len() == p - w || (out@.len() == 0 && w >= total_pages),
                        forall|j: int| 0 <= j < out@.len() ==> out@[j] == w + j,
                    decreases total_pages - p,
                {
                    out.push(p);
                    p += 1;
                }
                proof {
                    assert(out@ =~= range_from(w, total_pages));
                }
                out
            },
        };
        if pages.len() == 0 {
            tracker.mark_completed(document_id.as_str());
            return None;
        }
        let content = match existing_output {
            Some(t) => t,
            None => String::new(),
        };
        let s = BatchScheduler {
            document_id,
            total_pages,
            pages,
            pos: 0,
            pages_per_batch,
            content,
        };
        proof {
            assert(s@.batch_end() >= 1);
            assert(s@.pages[s@.batch_end() - 1] >= s@.pages[0] >= w);
        }
        Some(s)
    }

    /// Whether every scheduled page is committed.
    pub fn is_finished(&self) -> (r: bool)
        ensures
            r == self@.finished(),
    {
        self.pos == self.pages.len()
    }

    /// The pages of the next batch to convert: the first `pages_per_batch`
    /// uncommitted pages (or all that remain, if fewer).
    pub fn current_batch(&self) -> (r: Vec<u32>)
        requires
            self@.wf(),
            !self@.finished(),
        ensures
            r@ == self@.current_batch(),
            r@.len() > 0,
    {
        let len = self.pages.len();
        let remaining = len - self.pos;
        let bsz: usize = if (self.pages_per_batch as usize) <= remaining {
            self.pages_per_batch as usize
        } else {
            remaining
        };
        let end = self.pos + bsz;
        let mut out: Vec<u32> = Vec::new();
        let mut i: usize = self.pos;
        while i < end
            invariant
                self@.committed <= i <= end,
                end == self@.batch_end(),
                end <= self@.pages.len(),
                self.pages@ == self@.pages,
                out@ == self@.pages.subrange(self@.committed, i as int),
            decreases end - i,
        {
            proof {
                assert(self@.pages.subrange(self@.committed, i + 1) =~= self@.pages.subrange(
                    self@.committed,
                    i as int,
                ).push(self@.pages[i as int]));
            }
            out.push(self.pages[i]);
            i += 1;
        }
        out
    }

    /// Commit one converted batch: extend the output text with the batch's
    /// result and advance the checkpoint watermark to one past the batch's
    /// last page — on the final batch too; completion cleanup is the
    /// separate step [`BatchScheduler::complete`].
    ///
    /// The caller then durably writes the output text before persisting the
    /// store, so the watermark never claims more than the output holds.
    pub fn commit_batch(&mut self, new_text: &str, tracker: &mut ProgressTracker)
        requires
            old(self)@.wf(),
            !old(self)@.finished(),
            old(tracker).wf(),
        ensures
            final (self)@.wf(),
            final (tracker).wf(),
            final (self)@.doc == old(self)@.doc,
            final (self)@.total_pages == old(self)@.total_pages,
            final (self)@.pages == old(self)@.pages,
            final (self)@.bound == old(self)@.bound,
            final (self)@.committed == old(self)@.batch_end(),
            final (self)@.content == spec_append(old(self)@.content, new_text@),
            final (tracker)@ == tracker_after_commit(old(tracker)@, old(self)@),
            watermark_of(final (tracker)@, old(self)@.doc) == old(self)@.batch_last() + 1,
            // the watermark never moves backward
            watermark_of(old(tracker)@, old(self)@.doc) <= old(self)@.batch_last() + 1
                ==> watermark_of(final (tracker)@, old(self)@.doc) >= watermark_of(
                old(tracker)@,
                old(self)@.doc,
            ),
            !final (self)@.finished() ==> watermark_of(final (tracker)@, old(self)@.doc)
                <= final (self)@.batch_last() + 1,
    {
        let len = self.pages.len();
        let remaining = len - self.pos;
        let bsz: usize = if (self.pages_per_batch as usize) <= remaining {
            self.pages_per_batch as usize
        } else {
            remaining
        };
        let end = self.pos + bsz;
        append_markdown(&mut self.content, new_text);
        let last = self.pages[end - 1];
        tracker.update_progress(
            self.document_id.clone(),
            ProcessingProgress { last_processed_page: last + 1, total_pages: self.total_pages },
        );
        self.pos = end;
        proof {
            if !self@.finished() {
                assert(self@.batch_end() - 1 >= end);
                assert(self@.pages[end - 1] < self@.pages[self@.batch_end() - 1]
                    || end - 1 == self@.batch_end() - 1);
            }
        }
    }

    /// Completion cleanup: once the full requested selection is processed,
    /// remove the document's checkpoint record.  The caller persists the
    /// store afterwards; from then on the document's absence of a record,
    /// together with its existing output file, marks it as converted.
    pub fn complete(&self, tracker: &mut ProgressTracker)
        requires
            self@.finished(),
            old(tracker).wf(),
        ensures
            final (tracker).wf(),
            final (tracker)@ == old(tracker)@.remove(self@.doc),
    {
        tracker.mark_completed(self.document_id.as_str());
    }

    /// The assembled output text, for the caller to write durably.
    pub fn content(&self) -> (r: &String)
        ensures
            r@ == self@.content,
    {
        &self.content
    }

    /// The document id the run is for.
    pub fn document_id(&self) -> (r: &String)
        ensures
            r@ == self@.doc,
    {
        &self.document_id
    }

    /// The page count of the document.
    pub fn total_pages(&self) -> (r: u32)
        ensures
            r == self@.total_pages,
    {
        self.total_pages
    }
}

/// Law: once a document's requested selection has been fully processed its
/// record is gone, and a later run that finds no record but an existing
/// output file schedules nothing — so re-running a completed conversion
/// performs no backend calls and leaves the output byte-identical.
pub proof fn lemma_completed_run_schedules_nothing(
    m: Map<Seq<char>, ProcessingProgress>,
    doc: Seq<char>,
    requested: Option<Seq<u32>>,
    total: u32,
)
    requires
        !m.contains_key(doc),
    ensures
        effective_pages(m, doc, requested, total, true).len() == 0,
{
}

/// Law: committing a batch moves the document's watermark to one past the
/// batch's last page, which never moves it backward as long as the stored
/// watermark did not already exceed that point.
pub proof fn lemma_watermark_monotone(
    m: Map<Seq<char>, ProcessingProgress>,
    v: SchedulerView,
)
    requires
        v.wf(),
        !v.finished(),
        watermark_of(m, v.doc) <= v.batch_last() + 1,
    ensures
        watermark_of(tracker_after_commit(m, v), v.doc) >= watermark_of(m, v.doc),
{
}

/// Law: the current batch of a well-formed scheduler is a non-empty,
/// strictly ascending, contiguous slice of the effective pages, at most
/// `bound` pages long.
pub proof fn lemma_batch_shape(v: SchedulerView)
    requires
        v.wf(),
        !v.finished(),
    ensures
        0 < v.current_batch().len() <= v.bound,
        forall|i: int, j: int|
            0 <= i < j < v.current_batch().len() ==> v.current_batch()[i] < v.current_batch()[j],
        forall|i: int|
            0 <= i < v.current_batch().len() ==> v.current_batch()[i] == v.pages[v.committed + i],
{
}

/// Law: completion cleanup — the final batch's commit stores a watermark of
/// one past the last scheduled page, and the completion step that follows
/// removes the document's checkpoint record.
pub proof fn lemma_completion_cleanup(
    m: Map<Seq<char>, ProcessingProgress>,
    v: SchedulerView,
)
    requires
        v.wf(),
        !v.finished(),
        v.batch_end() == v.pages.len(),
    ensures
        watermark_of(tracker_after_commit(m, v), v.doc) == v.pages.last() + 1,
        !tracker_after_commit(m, v).remove(v.doc).contains_key(v.doc),
{
}

} // verus!
