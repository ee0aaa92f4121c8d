//! The decisions of the acquisition run: which archives to fetch, what each
//! attempt records in the tracker, and how the workers' trackers are folded
//! into one.

use vstd::prelude::*;
use crate::extension::{Extension, ExtensionVersionTracker};

verus! {

/// How many extensions are fetched at once in throttled mode, unless the
/// options say otherwise.
pub const DEFAULT_CONCURRENT_DOWNLOADS: usize = 1;

/// How an acquisition run proceeds.
#[derive(Clone, Copy)]
pub struct DownloadOptions {
    /// One task per extension, with no bound.
    pub async_mode: bool,
    /// Every listed version of each extension, not only the latest.
    pub all_versions: bool,
    /// Seconds to wait after each version of one extension.
    pub rate_limit: u64,
    /// How many extensions are fetched at once in throttled mode.
    pub max_concurrent: usize,
}

impl Default for DownloadOptions {
    /// Throttled, latest versions only, no pause, one extension at a time.
    fn default() -> (r: DownloadOptions)
        ensures
            !r.async_mode,
            !r.all_versions,
            r.rate_limit == 0,
            r.max_concurrent == DEFAULT_CONCURRENT_DOWNLOADS,
    {
        DownloadOptions {
            async_mode: false,
            all_versions: false,
            rate_limit: 0,
            max_concurrent: DEFAULT_CONCURRENT_DOWNLOADS,
        }
    }
}

impl DownloadOptions {
    /// How many extensions may be fetched at once: no bound in asynchronous
    /// mode, else the configured bound, at least one.
    pub fn concurrency_bound(&self) -> (r: Option<usize>)
        ensures
            self.async_mode ==> r is None,
            !self.async_mode ==> r == Some(if self.max_concurrent == 0 {
                1usize
            } else {
                self.max_concurrent
            }),
    {
        if self.async_mode {
            None
        } else if self.max_concurrent == 0 {
            Some(1)
        } else {
            Some(self.max_concurrent)
        }
    }

}

/// Whether the latest archive of an extension is fetched: where it is not
/// cached, or where the tracker does not hold exactly the catalog's version.
pub fn should_download_latest(
    archive_present: bool,
    tracker: &ExtensionVersionTracker,
    extension: &Extension,
) -> (r: bool)
    requires
        tracker.wf(),
    ensures
        r == (!archive_present || !(tracker@.contains_key(extension.id@) && tracker@[extension.id@]
            == extension.version@)),
{
    !archive_present || tracker.has_newer_version(extension)
}

/// What became of one archive of an acquisition run.
#[derive(PartialEq, Eq, Structural, Debug, Clone, Copy)]
pub enum Outcome {
    /// It was cached already and was not fetched.
    AlreadyPresent,
    /// It was fetched and written.
    Written,
    /// Fetching or writing it failed.
    Failed,
}

/// A worker's tracker when it starts: it holds only what that worker
/// records, and the prior tracker is read only to decide what to fetch.
pub fn worker_tracker() -> (r: ExtensionVersionTracker)
    ensures
        r.wf(),
        r@ == Map::<Seq<char>, Seq<char>>::empty(),
{
    ExtensionVersionTracker::new()
}

/// Records one archive's outcome: a cached or written archive records its
/// version; a failure changes nothing.
pub fn record_outcome(tracker: &mut ExtensionVersionTracker, extension: &Extension, outcome: Outcome)
    requires
        old(tracker).wf(),
    ensures
        final(tracker).wf(),
        outcome == Outcome::Failed ==> final(tracker)@ == old(tracker)@,
        outcome != Outcome::Failed ==> final(tracker)@ == old(tracker)@.insert(
            extension.id@,
            extension.version@,
        ),
{
    match outcome {
        Outcome::Failed => {},
        _ => tracker.update_extension(extension),
    }
}

/// The end of one listed version of an extension fetched with every version:
/// its outcome is recorded in the worker's tracker, and the pause before the
/// next version is returned. There is a pause only after a fetch was
/// attempted, only where another version of the same extension follows, and
/// only for a positive rate limit.
pub fn finish_version(
    recorded: &mut ExtensionVersionTracker,
    version: &Extension,
    outcome: Outcome,
    another_follows: bool,
    rate_limit: u64,
) -> (pause: Option<u64>)
    requires
        old(recorded).wf(),
    ensures
        final(recorded).wf(),
        outcome == Outcome::Failed ==> final(recorded)@ == old(recorded)@,
        outcome != Outcome::Failed ==> final(recorded)@ == old(recorded)@.insert(
            version.id@,
            version.version@,
        ),
        pause == (if outcome != Outcome::AlreadyPresent && another_follows && rate_limit > 0 {
            Some(rate_limit)
        } else {
            None::<u64>
        }),
{
    record_outcome(recorded, version, outcome);
    match outcome {
        Outcome::AlreadyPresent => None,
        _ => if another_follows && rate_limit > 0 {
            Some(rate_limit)
        } else {
            None
        },
    }
}

/// A returned worker tracker holds `k`.
pub open spec fn holds_key(o: Option<ExtensionVersionTracker>, k: Seq<char>) -> bool {
    match o {
        Some(t) => t@.contains_key(k),
        None => false,
    }
}

/// The version a returned worker tracker holds for `k`.
pub open spec fn held_version(o: Option<ExtensionVersionTracker>, k: Seq<char>) -> Seq<char> {
    match o {
        Some(t) => t@[k],
        None => Seq::empty(),
    }
}

/// Of the returned trackers, only the `i`-th holds `k`.
pub open spec fn only_holder(results: Seq<Option<ExtensionVersionTracker>>, i: int, k: Seq<char>) -> bool {
    &&& 0 <= i < results.len()
    &&& holds_key(results[i], k)
    &&& forall|j: int| 0 <= j < results.len() && j != i ==> !holds_key(#[trigger] results[j], k)
}

/// No returned tracker holds `k`.
pub open spec fn no_holder(results: Seq<Option<ExtensionVersionTracker>>, k: Seq<char>) -> bool {
    forall|j: int| 0 <= j < results.len() ==> !holds_key(#[trigger] results[j], k)
}

/// The tracker after each returned worker tracker is merged into `base` in
/// order; a worker that returned none adds nothing.
pub open spec fn reconciled(
    base: Map<Seq<char>, Seq<char>>,
    results: Seq<Option<ExtensionVersionTracker>>,
) -> Map<Seq<char>, Seq<char>>
    decreases results.len(),
{
    if results.len() == 0 {
        base
    } else {
        let prev = reconciled(base, results.drop_last());
        match results.last() {
            Some(t) => prev.union_prefer_right(t@),
            None => prev,
        }
    }
}

/// Folds the workers' trackers into the run's tracker once they are all done.
pub fn reconcile(
    base: ExtensionVersionTracker,
    results: Vec<Option<ExtensionVersionTracker>>,
) -> (r: ExtensionVersionTracker)
    requires
        base.wf(),
        forall|i: int| 0 <= i < results@.len() ==> (#[trigger] results@[i] matches Some(t) ==> t.wf()),
    ensures
        r.wf(),
        r@ == reconciled(base@, results@),
        forall|i: int, k: Seq<char>|
            #[trigger] only_holder(results@, i, k) ==> r@.contains_key(k) && r@[k] == held_version(
                results@[i],
                k,
            ),
        forall|k: Seq<char>|
            base@.contains_key(k) && #[trigger] no_holder(results@, k) ==> r@.contains_key(k) && r@[k]
                == base@[k],
{
    let ghost all = results@;
    let ghost start = base@;
    let total = results.len();
    let mut rest = results;
    let mut acc = base;
    let mut i: usize = 0;
    while rest.len() > 0
        invariant
            acc.wf(),
            total == all.len(),
            i + rest@.len() == total,
            rest@ == all.subrange(i as int, total as int),
            forall|k: int| 0 <= k < all.len() ==> (#[trigger] all[k] matches Some(t) ==> t.wf()),
            acc@ == reconciled(start, all.subrange(0, i as int)),
        decreases rest@.len(),
    {
        let item = rest.remove(0);
        assert(all[i as int] == item);
        assert(all.subrange(0, i + 1).drop_last() =~= all.subrange(0, i as int));
        assert(rest@ =~= all.subrange(i + 1, total as int));
        match item {
            Some(t) => acc.merge(t),
            None => {},
        }
        i = i + 1;
    }
    assert(all.subrange(0, i as int) =~= all);
    proof {
        lemma_reconciled_keys(start, all);
    }
    acc
}

proof fn lemma_reconciled_keys(
    base: Map<Seq<char>, Seq<char>>,
    results: Seq<Option<ExtensionVersionTracker>>,
)
    ensures
        forall|i: int, k: Seq<char>|
            #[trigger] only_holder(results, i, k) ==> reconciled(base, results).contains_key(k)
                && reconciled(base, results)[k] == held_version(results[i], k),
        forall|k: Seq<char>|
            base.contains_key(k) && #[trigger] no_holder(results, k) ==> reconciled(base, results).contains_key(k)
                && reconciled(base, results)[k] == base[k],
{
    assert forall|i: int, k: Seq<char>| #[trigger] only_holder(results, i, k) implies reconciled(
        base,
        results,
    ).contains_key(k) && reconciled(base, results)[k] == held_version(results[i], k) by {
        lemma_reconciled_single(base, results, i, k);
    }
    assert forall|k: Seq<char>| base.contains_key(k) && #[trigger] no_holder(results, k) implies reconciled(
        base,
        results,
    ).contains_key(k) && reconciled(base, results)[k] == base[k] by {
        lemma_reconciled_untouched(base, results, k);
    }
}

/// An id that only one returned tracker holds ends with that tracker's
/// version.
proof fn lemma_reconciled_single(
    base: Map<Seq<char>, Seq<char>>,
    results: Seq<Option<ExtensionVersionTracker>>,
    i: int,
    k: Seq<char>,
)
    requires
        only_holder(results, i, k),
    ensures
        reconciled(base, results).contains_key(k),
        reconciled(base, results)[k] == held_version(results[i], k),
    decreases results.len(),
{
    let prefix = results.drop_last();
    if i < results.len() - 1 {
        assert forall|j: int| 0 <= j < prefix.len() && j != i implies !holds_key(#[trigger] prefix[j], k) by {
            assert(prefix[j] == results[j]);
        }
        assert(prefix[i] == results[i]);
        assert(only_holder(prefix, i, k));
        lemma_reconciled_single(base, prefix, i, k);
        if results.last() is Some {
            assert(results[results.len() - 1] == results.last());
        }
    }
}

/// An id of the base that no returned tracker holds keeps its version.
proof fn lemma_reconciled_untouched(
    base: Map<Seq<char>, Seq<char>>,
    results: Seq<Option<ExtensionVersionTracker>>,
    k: Seq<char>,
)
    requires
        base.contains_key(k),
        no_holder(results, k),
    ensures
        reconciled(base, results).contains_key(k),
        reconciled(base, results)[k] == base[k],
    decreases results.len(),
{
    if results.len() > 0 {
        let prefix = results.drop_last();
        assert forall|j: int| 0 <= j < prefix.len() implies !holds_key(#[trigger] prefix[j], k) by {
            assert(prefix[j] == results[j]);
        }
        assert(!holds_key(results[results.len() - 1], k));
        lemma_reconciled_untouched(base, prefix, k);
        assert(results[results.len() - 1] == results.last());
    }
}

} // verus!
