//! The diff collector: which records warrant a diff fetch, and the
//! order-preserving, fail-fast collection of their diffs.
//!
//! Fetching a diff means running an external tool, so the collector takes
//! the fetch as a capability: a function from a path to the diff text, or to
//! nothing when the fetch fails. The selection rule and the ordering are
//! proved here; of the capability only what its own contract gives is used.

use vstd::prelude::*;

use crate::parse::{parse_status_report, record_views, spec_parse_report};
use crate::status::{ErrorView, FileStatusView, GitError, GitFileStatus};

verus! {

/// The state code that marks a path as untracked.
pub open spec fn spec_untracked() -> char {
    '?'
}

/// A record warrants a diff fetch unless one of its state codes marks it
/// untracked: an untracked path has no prior content to diff against.
pub open spec fn spec_is_selected(f: FileStatusView) -> bool {
    f.x != spec_untracked() && f.y != spec_untracked()
}

/// The paths of the diff-eligible records, in record order. Renames
/// contribute their destination path.
pub open spec fn spec_selected_paths(records: Seq<FileStatusView>) -> Seq<Seq<char>>
    decreases records.len(),
{
    if records.len() == 0 {
        Seq::empty()
    } else if spec_is_selected(records.last()) {
        spec_selected_paths(records.drop_last()).push(records.last().filename)
    } else {
        spec_selected_paths(records.drop_last())
    }
}

/// One step of the selection: extending the records by one either appends
/// its path to the selected list or leaves the list as it was.
pub proof fn lemma_selected_paths_step(records: Seq<FileStatusView>, i: int)
    requires
        0 <= i < records.len(),
    ensures
        spec_selected_paths(records.take(i + 1)) == (if spec_is_selected(records[i]) {
            spec_selected_paths(records.take(i)).push(records[i].filename)
        } else {
            spec_selected_paths(records.take(i))
        }),
{
    assert(records.take(i + 1).drop_last() =~= records.take(i));
    assert(records.take(i + 1).last() == records[i]);
}

/// The number of paths selected from a prefix never shrinks as the prefix
/// grows.
pub proof fn lemma_selected_count_monotone(records: Seq<FileStatusView>, i: int, j: int)
    requires
        0 <= i <= j <= records.len(),
    ensures
        spec_selected_paths(records.take(i)).len() <= spec_selected_paths(records.take(j)).len(),
    decreases j - i,
{
    if i < j {
        lemma_selected_count_monotone(records, i, j - 1);
        lemma_selected_paths_step(records, j - 1);
    }
}

/// Selection order preserved: the diff-eligible record at position `i`
/// contributes its path at position "number of eligible records before `i`"
/// of the selected list, so the selected paths are exactly the eligible
/// records' paths as a subsequence, in original record order.
pub proof fn lemma_selection_order(records: Seq<FileStatusView>, i: int)
    requires
        0 <= i < records.len(),
        spec_is_selected(records[i]),
    ensures
        spec_selected_paths(records.take(i)).len() < spec_selected_paths(records).len(),
        spec_selected_paths(records)[spec_selected_paths(records.take(i)).len() as int]
            == records[i].filename,
    decreases records.len(),
{
    if i == records.len() - 1 {
        assert(records.take(i) =~= records.drop_last());
    } else {
        lemma_selection_order(records.drop_last(), i);
        assert(records.drop_last().take(i) =~= records.take(i));
        assert(records.drop_last()[i] == records[i]);
    }
}

/// Two diff-eligible records keep their relative order in the selected
/// list: the earlier record's path stands strictly before the later one's.
pub proof fn lemma_selection_order_pairwise(records: Seq<FileStatusView>, i: int, j: int)
    requires
        0 <= i < j < records.len(),
        spec_is_selected(records[i]),
        spec_is_selected(records[j]),
    ensures
        spec_selected_paths(records.take(i)).len() < spec_selected_paths(records.take(j)).len(),
        spec_selected_paths(records)[spec_selected_paths(records.take(i)).len() as int]
            == records[i].filename,
        spec_selected_paths(records)[spec_selected_paths(records.take(j)).len() as int]
            == records[j].filename,
{
    lemma_selection_order(records, i);
    lemma_selection_order(records, j);
    lemma_selected_paths_step(records, i);
    lemma_selected_count_monotone(records, i + 1, j);
}

/// The full pipeline state: the records parsed from the most recent status
/// report.
pub struct GitProcess {
    pub status_map: Vec<GitFileStatus>,
}

impl GitProcess {
    /// A fresh pipeline with no records.
    pub fn new() -> (r: GitProcess)
        ensures
            r.status_map@ == Seq::<GitFileStatus>::empty(),
    {
        GitProcess { status_map: Vec::new() }
    }

    /// Parses the raw status report and stores the records, one per line in
    /// line order. On a malformed line nothing is stored: the first such
    /// line's error comes back and the record list is empty.
    pub fn check_status(&mut self, report: &str) -> (r: Result<(), GitError>)
        ensures
            match r {
                Ok(()) => spec_parse_report(report@) == Ok::<Seq<FileStatusView>, ErrorView>(
                    record_views(final(self).status_map@),
                ),
                Err(e) => spec_parse_report(report@) == Err::<Seq<FileStatusView>, ErrorView>(e@)
                    && final(self).status_map@ == Seq::<GitFileStatus>::empty(),
            },
    {
        match parse_status_report(report) {
            Ok(records) => {
                self.status_map = records;
                Ok(())
            },
            Err(e) => {
                self.status_map = Vec::new();
                Err(e)
            },
        }
    }

    /// Collects the diff of every diff-eligible record, in record order,
    /// asking the capability `fetch` once per eligible record with the
    /// record's current path. Fail-fast: the first fetch that fails aborts
    /// the collection with `DiffFetchFailed` for that path, and no diffs
    /// come back.
    pub fn get_diffs<F: Fn(String) -> Option<String>>(&self, fetch: F) -> (r: Result<
        Vec<String>,
        GitError,
    >)
        requires
            forall|path: String| call_requires(fetch, (path,)),
        ensures
            match r {
                Ok(diffs) => {
                    let selected = spec_selected_paths(record_views(self.status_map@));
                    &&& diffs@.len() == selected.len()
                    &&& forall|i: int|
                        0 <= i < selected.len() ==> spec_fetch_gave(
                            fetch,
                            selected[i],
                            #[trigger] diffs@[i],
                        )
                },
                Err(e) => {
                    let selected = spec_selected_paths(record_views(self.status_map@));
                    exists|path: String|
                        {
                            &&& #[trigger] call_ensures(fetch, (path,), None::<String>)
                            &&& selected.contains(path@)
                            &&& e@ == ErrorView::DiffFetchFailed { path: path@ }
                        }
                },
            },
    {
        let mut diffs: Vec<String> = Vec::new();
        let mut i: usize = 0;
        proof {
            assert(self.status_map@.take(0) =~= Seq::<GitFileStatus>::empty());
            assert(record_views(Seq::<GitFileStatus>::empty()) =~= Seq::<FileStatusView>::empty());
        }
        while i < self.status_map.len()
            invariant
                forall|path: String| call_requires(fetch, (path,)),
                i <= self.status_map@.len(),
                diffs@.len() == spec_selected_paths(
                    record_views(self.status_map@.take(i as int)),
                ).len(),
                forall|k: int|
                    0 <= k < diffs@.len() ==> spec_fetch_gave(
                        fetch,
                        spec_selected_paths(record_views(self.status_map@.take(i as int)))[k],
                        #[trigger] diffs@[k],
                    ),
            decreases self.status_map@.len() - i,
        {
            proof {
                assert(record_views(self.status_map@.take(i + 1)) =~= record_views(
                    self.status_map@.take(i as int),
                ).push(self.status_map@[i as int]@));
                lemma_selected_paths_step(record_views(self.status_map@), i as int);
                assert(record_views(self.status_map@).take(i + 1) =~= record_views(
                    self.status_map@.take(i + 1),
                ));
                assert(record_views(self.status_map@).take(i as int) =~= record_views(
                    self.status_map@.take(i as int),
                ));
            }
            let entry = &self.status_map[i];
            if entry.x != '?' && entry.y != '?' {
                let path = entry.filename.clone();
                match fetch(path) {
                    Some(diff) => {
                        diffs.push(diff);
                    },
                    None => {
                        proof {
                            lemma_selection_order(record_views(self.status_map@), i as int);
                        }
                        return Err(GitError::DiffFetchFailed { path: entry.filename.clone() });
                    },
                }
            }
            i = i + 1;
        }
        proof {
            assert(self.status_map@.take(self.status_map@.len() as int) =~= self.status_map@);
        }
        Ok(diffs)
    }
}

/// The capability, called on `path`, can have returned exactly this diff.
pub open spec fn spec_fetch_gave<F: Fn(String) -> Option<String>>(
    fetch: F,
    path: Seq<char>,
    diff: String,
) -> bool {
    exists|p: String| p@ == path && #[trigger] call_ensures(fetch, (p,), Some(diff))
}

} // verus!
