//! Durable per-document progress records.
//!
//! A [`ProgressTracker`] maps a document id (the canonical source path) to
//! the progress made on it so far.  It is loaded at pipeline start and
//! persisted after every batch by the surrounding program; this module owns
//! only the in-memory record set and its semantics, which are specified
//! against a `Map<Seq<char>, ProcessingProgress>` abstraction.

use crate::strops::str_eq;
use vstd::prelude::*;

verus! {

/// Progress on one document.
///
/// `last_processed_page` is the watermark: every page index strictly below
/// it is durably converted and present in the output document.
#[derive(Debug, Clone, Copy, PartialEq, Eq, Structural)]
pub struct ProcessingProgress {
    pub last_processed_page: u32,
    pub total_pages: u32,
}

/// The record set, keyed by document id.
///
/// Backed by an association list with pairwise-distinct keys; viewed as a
/// finite map from the document id's character sequence to its progress.
pub struct ProgressTracker {
    files: Vec<(String, ProcessingProgress)>,
}

/// The map denoted by an association list (later entries shadow earlier
/// ones, which the tracker's key-distinctness invariant makes moot).
pub open spec fn entries_map(s: Seq<(String, ProcessingProgress)>) -> Map<
    Seq<char>,
    ProcessingProgress,
>
    decreases s.len(),
{
    if s.len() == 0 {
        Map::empty()
    } else {
        entries_map(s.drop_last()).insert(s.last().0@, s.last().1)
    }
}

/// Pairwise-distinct keys.
pub open spec fn distinct_keys(s: Seq<(String, ProcessingProgress)>) -> bool {
    forall|i: int, j: int| 0 <= i < j < s.len() ==> s[i].0@ != s[j].0@
}

proof fn lemma_entries_map_dom(s: Seq<(String, ProcessingProgress)>, k: Seq<char>)
    ensures
        entries_map(s).contains_key(k) <==> exists|i: int| 0 <= i < s.len() && s[i].0@ == k,
    decreases s.len(),
{
    if s.len() > 0 {
        lemma_entries_map_dom(s.drop_last(), k);
        if s.last().0@ == k {
            assert(s[s.len() - 1].0@ == k);
        } else if entries_map(s).contains_key(k) {
            let i = choose|i: int| 0 <= i < s.drop_last().len() && s.drop_last()[i].0@ == k;
            assert(s[i].0@ == k);
        } else if exists|i: int| 0 <= i < s.len() && s[i].0@ == k {
            let i = choose|i: int| 0 <= i < s.len() && s[i].0@ == k;
            assert(i < s.len() - 1);
            assert(s.drop_last()[i].0@ == k);
        }
    }
}

proof fn lemma_entries_map_value(s: Seq<(String, ProcessingProgress)>, i: int)
    requires
        distinct_keys(s),
        0 <= i < s.len(),
    ensures
        entries_map(s).contains_key(s[i].0@),
        entries_map(s)[s[i].0@] == s[i].1,
    decreases s.len(),
{
    if i == s.len() - 1 {
    } else {
        lemma_entries_map_value(s.drop_last(), i);
        assert(s.drop_last()[i] == s[i]);
        assert(s.last().0@ != s[i].0@);
    }
}

proof fn lemma_entries_map_push(s: Seq<(String, ProcessingProgress)>, e: (
    String,
    ProcessingProgress,
))
    ensures
        entries_map(s.push(e)) == entries_map(s).insert(e.0@, e.1),
{
    assert(s.push(e).drop_last() =~= s);
    assert(s.push(e).last() == e);
}

proof fn lemma_entries_map_remove(s: Seq<(String, ProcessingProgress)>, i: int)
    requires
        distinct_keys(s),
        0 <= i < s.len(),
    ensures
        entries_map(s.remove(i)) == entries_map(s).remove(s[i].0@),
    decreases s.len(),
{
    let k = s[i].0@;
    if i == s.len() - 1 {
        assert(s.remove(i) =~= s.drop_last());
        lemma_entries_map_dom(s.drop_last(), k);
        assert(!entries_map(s.drop_last()).contains_key(k));
        assert(entries_map(s.drop_last()).insert(k, s.last().1).remove(k) =~= entries_map(
            s.drop_last(),
        ));
    } else {
        assert(s.remove(i).drop_last() =~= s.drop_last().remove(i));
        assert(s.remove(i).last() == s.last());
        assert(s.drop_last()[i] == s[i]);
        lemma_entries_map_remove(s.drop_last(), i);
        assert(s.last().0@ != k);
        assert(entries_map(s.drop_last()).remove(k).insert(s.last().0@, s.last().1)
            =~= entries_map(s.drop_last()).insert(s.last().0@, s.last().1).remove(k));
    }
}

impl View for ProgressTracker {
    type V = Map<Seq<char>, ProcessingProgress>;

    closed spec fn view(&self) -> Map<Seq<char>, ProcessingProgress> {
        entries_map(self.files@)
    }
}

impl ProgressTracker {
    /// Well-formedness: the backing entries carry pairwise-distinct keys.
    /// Established by [`ProgressTracker::new`] and preserved by every method.
    pub closed spec fn wf(&self) -> bool {
        distinct_keys(self.files@)
    }

    /// An empty record set.
    pub fn new() -> (r: ProgressTracker)
        ensures
            r@ == Map::<Seq<char>, ProcessingProgress>::empty(),
            r.wf(),
    {
        ProgressTracker { files: Vec::new() }
    }

    /// The index of the entry for `file_path`, if one exists.
    fn find_index(&self, file_path: &str) -> (r: Option<usize>)
        ensures
            match r {
                Some(i) => i < self.files@.len() && self.files@[i as int].0@ == file_path@,
                None => forall|j: int| 0 <= j < self.files@.len() ==> self.files@[j].0@ != file_path@,
            },
    {
        let n = self.files.len();
        let mut i: usize = 0;
        while i < n
            invariant
                i <= n,
                n == self.files@.len(),
                forall|j: int| 0 <= j < i ==> self.files@[j].0@ != file_path@,
            decreases n - i,
        {
            if str_eq(self.files[i].0.as_str(), file_path) {
                return Some(i);
            }
            i += 1;
        }
        None
    }

    /// The current progress for a document, or none if never started.
    pub fn get_progress(&self, file_path: &str) -> (r: Option<&ProcessingProgress>)
        requires
            self.wf(),
        ensures
            match r {
                Some(p) => self@.contains_key(file_path@) && *p == self@[file_path@],
                None => !self@.contains_key(file_path@),
            },
    {
        proof {
            lemma_entries_map_dom(self.files@, file_path@);
        }
        match self.find_index(file_path) {
            Some(i) => {
                proof {
                    lemma_entries_map_value(self.files@, i as int);
                }
                Some(&self.files[i].1)
            },
            None => None,
        }
    }

    /// Replace (or create) the record for a document.
    ///
    /// Callers advance `last_processed_page` monotonically; the store itself
    /// performs a plain replacement.
    pub fn update_progress(&mut self, file_path: String, progress: ProcessingProgress)
        requires
            old(self).wf(),
        ensures
            final (self)@ == old(self)@.insert(file_path@, progress),
            final (self).wf(),
    {
        let ghost s0 = self.files@;
        match self.find_index(file_path.as_str()) {
            Some(i) => {
                proof {
                    lemma_entries_map_remove(s0, i as int);
                }
                self.files.remove(i);
                proof {
                    lemma_entries_map_push(self.files@, (file_path, progress));
                    lemma_entries_map_dom(self.files@, file_path@);
                    assert(forall|j: int|
                        0 <= j < self.files@.len() ==> self.files@[j].0@ != file_path@);
                    assert(entries_map(s0).remove(file_path@).insert(file_path@, progress)
                        =~= entries_map(s0).insert(file_path@, progress));
                }
                self.files.push((file_path, progress));
            },
            None => {
                proof {
                    lemma_entries_map_push(self.files@, (file_path, progress));
                }
                self.files.push((file_path, progress));
            },
        }
    }

    /// Remove the record for a document; pipeline completion calls this.
    pub fn mark_completed(&mut self, file_path: &str)
        requires
            old(self).wf(),
        ensures
            final (self)@ == old(self)@.remove(file_path@),
            final (self).wf(),
    {
        proof {
            lemma_entries_map_dom(self.files@, file_path@);
        }
        match self.find_index(file_path) {
            Some(i) => {
                proof {
                    lemma_entries_map_remove(self.files@, i as int);
                }
                self.files.remove(i);
            },
            None => {
                proof {
                    assert(!entries_map(self.files@).contains_key(file_path@));
                    assert(entries_map(self.files@).remove(file_path@) =~= entries_map(
                        self.files@,
                    ));
                }
            },
        }
    }

    /// The raw entries, for persistence by the surrounding program.
    pub fn entries(&self) -> (r: &Vec<(String, ProcessingProgress)>)
        requires
            self.wf(),
        ensures
            entries_map(r@) == self@,
            distinct_keys(r@),
    {
        &self.files
    }
}

} // verus!
