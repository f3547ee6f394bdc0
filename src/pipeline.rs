//! The decisions of a worker that takes file paths off a shared queue, and
//! what the queue delivers to a pool of such workers.
use vstd::prelude::*;
use vstd::multiset::Multiset;
use vstd::set_lib::{lemma_int_range, lemma_subset_equality, set_int_range};
use crate::classify::{count_for, count_in};
use crate::count::{Count, CountTotal, can_merge, merged, zero_count};
use crate::language::{Language, get_language, language_of_path};
use crate::lines::lines_of;

verus! {

/// An item on the work queue: a file to count, or the signal to stop.
pub enum Work {
    File(String),
    Quit,
}

/// The tally of one file whose language is known.
pub struct FileCount {
    pub path: String,
    pub language: Language,
    pub count: Count,
}

/// What a worker does with an item it took.
#[derive(PartialEq, Eq, Structural, Clone, Copy, Debug)]
pub enum Action {
    /// Read the file and count it in the given language.
    Scan(Language),
    /// Leave the file aside: its language is unknown.
    Skip,
    /// Give up: the path has no file name, so no language can be judged.
    NoFileName,
    /// Stop taking items.
    Stop,
}

/// Why a worker could not handle an item.
#[derive(PartialEq, Eq, Structural, Clone, Copy, Debug)]
pub enum WorkError {
    /// The path of a file item has no file name.
    NoFileName,
}

/// The language in which a path is counted, if it is counted at all.
pub open spec fn counted_language(p: Seq<char>) -> Option<Language> {
    match language_of_path(p) {
        Some(l) => if l != Language::Unknown {
            Some(l)
        } else {
            None
        },
        None => None,
    }
}

/// The item is a file that gets a record.
pub open spec fn is_known(item: Work) -> bool {
    match item {
        Work::File(p) => counted_language(p@) is Some,
        Work::Quit => false,
    }
}

/// What a worker does with `item`.
pub open spec fn action_of(item: Work) -> Action {
    match item {
        Work::Quit => Action::Stop,
        Work::File(p) => match language_of_path(p@) {
            None => Action::NoFileName,
            Some(l) => if l != Language::Unknown {
                Action::Scan(l)
            } else {
                Action::Skip
            },
        },
    }
}

/// The tally recorded for a file of language `l` whose bytes could be read
/// (`Some`) or not (`None`).
pub open spec fn recorded_count(bytes: Option<Seq<u8>>, l: Language) -> Count {
    match bytes {
        Some(b) => count_for(b, l),
        None => zero_count(),
    }
}

/// What a worker does with `item`.
pub fn next_action(item: &Work) -> (r: Action)
    ensures
        r == action_of(*item),
{
    match item {
        Work::Quit => Action::Stop,
        Work::File(path) => match get_language(path.as_str()) {
            Some(l) => if l != Language::Unknown {
                Action::Scan(l)
            } else {
                Action::Skip
            },
            None => Action::NoFileName,
        },
    }
}

/// A worker: the records it has made so far, and whether it has stopped.
pub struct Worker {
    pub file_counts: Vec<FileCount>,
    pub stopped: bool,
}

impl Worker {
    /// A worker that has taken nothing yet.
    pub fn new() -> (r: Worker)
        ensures
            r.file_counts@.len() == 0,
            !r.stopped,
    {
        Worker { file_counts: Vec::new(), stopped: false }
    }

    /// Handles one item: stops on `Quit`; for a file whose language is
    /// known, records its tally, counted from `bytes`, or all zero when the
    /// file could not be read; leaves a file of unknown language aside; fails,
    /// changing nothing, on a path without a file name.
    pub fn handle(&mut self, item: Work, bytes: Option<&[u8]>) -> (r: Result<(), WorkError>)
        requires
            !old(self).stopped,
            match bytes {
                Some(b) => lines_of(b@).len() <= u32::MAX,
                None => true,
            },
        ensures
            r is Err <==> action_of(item) == Action::NoFileName,
            final(self).stopped == (item is Quit),
            is_known(item) ==> {
                &&& final(self).file_counts@.len() == old(self).file_counts@.len() + 1
                &&& final(self).file_counts@.drop_last() == old(self).file_counts@
                &&& item matches Work::File(p) && final(self).file_counts@.last().path@ == p@
                &&& counted_language(final(self).file_counts@.last().path@) == Some(
                    final(self).file_counts@.last().language,
                )
                &&& final(self).file_counts@.last().count == recorded_count(
                    match bytes {
                        Some(b) => Some(b@),
                        None => None,
                    },
                    final(self).file_counts@.last().language,
                )
            },
            !is_known(item) ==> final(self).file_counts@ == old(self).file_counts@,
    {
        match item {
            Work::Quit => {
                self.stopped = true;
                Ok(())
            },
            Work::File(path) => match get_language(path.as_str()) {
                None => Err(WorkError::NoFileName),
                Some(language) => {
                    if language != Language::Unknown {
                        let c = match bytes {
                            Some(b) => count_in(b, language),
                            None => Count::default(),
                        };
                        self.file_counts.push(FileCount { path, language, count: c });
                    }
                    Ok(())
                },
            },
        }
    }
}

/// How many of `items` are files that get a record.
pub open spec fn known_files(items: Seq<Work>) -> nat
    decreases items.len(),
{
    if items.len() == 0 {
        0
    } else {
        known_files(items.drop_last()) + if is_known(items.last()) {
            1nat
        } else {
            0nat
        }
    }
}

/// The paths of the files among `items` that get a record, each as often as
/// it occurs.
pub open spec fn known_paths(items: Seq<Work>) -> Multiset<Seq<char>>
    decreases items.len(),
{
    if items.len() == 0 {
        Multiset::empty()
    } else {
        match items.last() {
            Work::File(p) => if is_known(items.last()) {
                known_paths(items.drop_last()).insert(p@)
            } else {
                known_paths(items.drop_last())
            },
            Work::Quit => known_paths(items.drop_last()),
        }
    }
}

/// Hands `items` out in order, the `i`-th to worker `takers[i]`. Returns the
/// workers that have stopped, the number of records made by all of them, and
/// the paths recorded.
pub open spec fn run_queue(items: Seq<Work>, takers: Seq<int>) -> (Set<int>, nat, Multiset<Seq<char>>)
    decreases items.len(),
{
    if items.len() == 0 || takers.len() != items.len() {
        (Set::empty(), 0, Multiset::empty())
    } else {
        let before = run_queue(items.drop_last(), takers.drop_last());
        match items.last() {
            Work::Quit => (before.0.insert(takers.last()), before.1, before.2),
            Work::File(p) => if is_known(items.last()) {
                (before.0, before.1 + 1, before.2.insert(p@))
            } else {
                (before.0, before.1, before.2)
            },
        }
    }
}

/// Each item goes to one of `w` workers that has not stopped yet.
pub open spec fn valid_takers(items: Seq<Work>, takers: Seq<int>, w: int) -> bool {
    &&& takers.len() == items.len()
    &&& forall|i: int|
        0 <= i < items.len() ==> 0 <= #[trigger] takers[i] < w && !run_queue(
            items.take(i),
            takers.take(i),
        ).0.contains(takers[i])
}

/// `w` stop signals.
pub open spec fn quits(w: int) -> Seq<Work> {
    Seq::new(w as nat, |i: int| Work::Quit)
}

proof fn lemma_run_prefix(files: Seq<Work>, takers: Seq<int>, w: int, k: int)
    requires
        0 <= w,
        0 <= k <= files.len() + w,
        forall|i: int| 0 <= i < files.len() ==> #[trigger] files[i] is File,
        valid_takers(files + quits(w), takers, w),
    ensures
        k <= files.len() ==> run_queue((files + quits(w)).take(k), takers.take(k)) == (
            Set::<int>::empty(),
            known_files(files.take(k)),
            known_paths(files.take(k)),
        ),
        k > files.len() ==> {
            let r = run_queue((files + quits(w)).take(k), takers.take(k));
            &&& r.0.subset_of(set_int_range(0, w))
            &&& r.0.finite()
            &&& r.0.len() == k - files.len()
            &&& r.1 == known_files(files)
            &&& r.2 == known_paths(files)
        },
    decreases k,
{
    let items = files + quits(w);
    if k > 0 {
        lemma_run_prefix(files, takers, w, k - 1);
        assert(items.take(k).drop_last() =~= items.take(k - 1));
        assert(takers.take(k).drop_last() =~= takers.take(k - 1));
        assert(items.take(k).last() == items[k - 1]);
        assert(takers.take(k).last() == takers[k - 1]);
        if k <= files.len() {
            assert(files.take(k).drop_last() =~= files.take(k - 1));
            assert(items[k - 1] == files[k - 1]);
            assert(files[k - 1] is File);
        } else {
            assert(items[k - 1] == Work::Quit);
            let t = takers[k - 1];
            assert(0 <= t < w);
            if k - 1 == files.len() {
                assert(files.take(k - 1) =~= files);
            }
        }
    } else {
        assert(items.take(0) =~= Seq::<Work>::empty());
        assert(files.take(0) =~= Seq::<Work>::empty());
    }
}

/// With `w >= 1` workers and every file put on the queue before `w` stop
/// signals, handing the items out one by one to workers that have not yet
/// stopped leaves every worker stopped, and the records of all workers
/// together number exactly the files whose language is known, with each such
/// path recorded as often as it was put on the queue.
pub proof fn lemma_queue_drains(files: Seq<Work>, takers: Seq<int>, w: int)
    requires
        w >= 1,
        forall|i: int| 0 <= i < files.len() ==> #[trigger] files[i] is File,
        valid_takers(files + quits(w), takers, w),
    ensures
        run_queue(files + quits(w), takers).0 == set_int_range(0, w),
        run_queue(files + quits(w), takers).1 == known_files(files),
        run_queue(files + quits(w), takers).2 == known_paths(files),
{
    let items = files + quits(w);
    let k = files.len() + w;
    lemma_run_prefix(files, takers, w, k);
    assert(items.take(k) =~= items);
    assert(takers.take(k) =~= takers);
    lemma_int_range(0, w);
    lemma_subset_equality(run_queue(items, takers).0, set_int_range(0, w));
}

/// How many records are of language `l`.
pub open spec fn files_of(fcs: Seq<FileCount>, l: Language) -> nat
    decreases fcs.len(),
{
    if fcs.len() == 0 {
        0
    } else {
        files_of(fcs.drop_last(), l) + if fcs.last().language == l {
            1nat
        } else {
            0nat
        }
    }
}

/// The merged tally of the records of language `l`, in order.
pub open spec fn total_of(fcs: Seq<FileCount>, l: Language) -> Count
    decreases fcs.len(),
{
    if fcs.len() == 0 {
        zero_count()
    } else if fcs.last().language == l {
        merged(total_of(fcs.drop_last(), l), fcs.last().count)
    } else {
        total_of(fcs.drop_last(), l)
    }
}

/// Each record's tally can be merged into the total of its language so far
/// without leaving `u32`.
pub open spec fn sums_fit(fcs: Seq<FileCount>) -> bool {
    forall|k: int|
        0 <= k < fcs.len() ==> can_merge(
            total_of(fcs.take(k), #[trigger] fcs[k].language),
            fcs[k].count,
        )
}

/// One entry per language present, each with its number of files and merged
/// tally.
#[verifier::opaque]
pub open spec fn totals_ok(fcs: Seq<FileCount>, r: Seq<(Language, CountTotal)>) -> bool {
    &&& forall|i: int|
        0 <= i < r.len() ==> (#[trigger] r[i]).1.files == files_of(fcs, r[i].0) && r[i].1.count
            == total_of(fcs, r[i].0) && files_of(fcs, r[i].0) > 0
    &&& forall|i: int, j: int| 0 <= i < j < r.len() ==> (#[trigger] r[i]).0 != (#[trigger] r[j]).0
    &&& forall|j: int|
        0 <= j < fcs.len() ==> exists|i: int| 0 <= i < r.len() && (#[trigger] r[i]).0 == (
        #[trigger] fcs[j]).language
}

proof fn lemma_absent_from_totals(
    pre: Seq<FileCount>,
    fc: FileCount,
    old_totals: Seq<(Language, CountTotal)>,
)
    requires
        totals_ok(pre, old_totals),
        forall|m: int| 0 <= m < old_totals.len() ==> (#[trigger] old_totals[m]).0 != fc.language,
    ensures
        total_of(pre, fc.language) == zero_count(),
        can_merge(total_of(pre, fc.language), fc.count),
{
    reveal(totals_ok);
    assert forall|j: int| 0 <= j < pre.len() implies (#[trigger] pre[j]).language != fc.language by {
        if pre[j].language == fc.language {
            let w = choose|w: int|
                0 <= w < old_totals.len() && (#[trigger] old_totals[w]).0 == (
                #[trigger] pre[j]).language;
        }
    }
    lemma_absent(pre, fc.language);
}

proof fn lemma_absent(fcs: Seq<FileCount>, l: Language)
    requires
        forall|j: int| 0 <= j < fcs.len() ==> (#[trigger] fcs[j]).language != l,
    ensures
        files_of(fcs, l) == 0,
        total_of(fcs, l) == zero_count(),
    decreases fcs.len(),
{
    if fcs.len() > 0 {
        assert(fcs.last() == fcs[fcs.len() - 1]);
        lemma_absent(fcs.drop_last(), l);
    }
}

proof fn lemma_totals_entry(pre: Seq<FileCount>, totals: Seq<(Language, CountTotal)>, i: int)
    requires
        totals_ok(pre, totals),
        0 <= i < totals.len(),
    ensures
        totals[i].1.count == total_of(pre, totals[i].0),
        totals[i].1.files == files_of(pre, totals[i].0),
{
    reveal(totals_ok);
    assert(totals[i] == totals[i]);
}

proof fn lemma_step(fcs: Seq<FileCount>, fc: FileCount, l: Language)
    ensures
        files_of(fcs.push(fc), l) == files_of(fcs, l) + if fc.language == l {
            1nat
        } else {
            0nat
        },
        total_of(fcs.push(fc), l) == if fc.language == l {
            merged(total_of(fcs, l), fc.count)
        } else {
            total_of(fcs, l)
        },
{
    assert(fcs.push(fc).drop_last() =~= fcs);
}

proof fn lemma_files_bound(fcs: Seq<FileCount>, l: Language)
    ensures
        files_of(fcs, l) <= fcs.len(),
    decreases fcs.len(),
{
    if fcs.len() > 0 {
        lemma_files_bound(fcs.drop_last(), l);
    }
}

proof fn lemma_totals_update(
    pre: Seq<FileCount>,
    fc: FileCount,
    old_totals: Seq<(Language, CountTotal)>,
    i: int,
)
    requires
        totals_ok(pre, old_totals),
        0 <= i < old_totals.len(),
        old_totals[i].0 == fc.language,
        pre.len() < u32::MAX,
    ensures
        totals_ok(
            pre.push(fc),
            old_totals.update(
                i,
                (
                    fc.language,
                    CountTotal {
                        files: (old_totals[i].1.files + 1) as u32,
                        count: merged(old_totals[i].1.count, fc.count),
                    },
                ),
            ),
        ),
{
    reveal(totals_ok);
    let next = pre.push(fc);
    lemma_files_bound(pre, fc.language);
    assert(old_totals[i].1.files == files_of(pre, fc.language));
    let r = old_totals.update(
        i,
        (
            fc.language,
            CountTotal {
                files: (old_totals[i].1.files + 1) as u32,
                count: merged(old_totals[i].1.count, fc.count),
            },
        ),
    );
    assert forall|q: int| 0 <= q < r.len() implies (#[trigger] r[q]).1.files == files_of(
        next,
        r[q].0,
    ) && r[q].1.count == total_of(next, r[q].0) && files_of(next, r[q].0) > 0 by {
        lemma_step(pre, fc, r[q].0);
        if q != i {
            assert(r[q] == old_totals[q]);
            assert(old_totals[q].0 != old_totals[i].0) by {
                if q < i {
                    assert(old_totals[q].0 != old_totals[i].0);
                } else {
                    assert(old_totals[i].0 != old_totals[q].0);
                }
            }
        }
    }
    assert forall|a: int, b: int| 0 <= a < b < r.len() implies (#[trigger] r[a]).0 != (
    #[trigger] r[b]).0 by {
        assert(r[a].0 == old_totals[a].0 && r[b].0 == old_totals[b].0);
    }
    assert forall|j: int| 0 <= j < next.len() implies exists|q: int|
        0 <= q < r.len() && (#[trigger] r[q]).0 == (#[trigger] next[j]).language by {
        if j < pre.len() {
            assert(next[j] == pre[j]);
            let q = choose|q: int|
                0 <= q < old_totals.len() && (#[trigger] old_totals[q]).0 == (
                #[trigger] pre[j]).language;
            assert(r[q].0 == old_totals[q].0);
        } else {
            assert(r[i].0 == next[j].language);
        }
    }
}

proof fn lemma_totals_push(pre: Seq<FileCount>, fc: FileCount, old_totals: Seq<(Language, CountTotal)>)
    requires
        totals_ok(pre, old_totals),
        forall|m: int| 0 <= m < old_totals.len() ==> (#[trigger] old_totals[m]).0 != fc.language,
    ensures
        totals_ok(
            pre.push(fc),
            old_totals.push((fc.language, CountTotal { files: 1, count: fc.count })),
        ),
{
    reveal(totals_ok);
    let next = pre.push(fc);
    let r = old_totals.push((fc.language, CountTotal { files: 1, count: fc.count }));
    assert forall|j: int| 0 <= j < pre.len() implies (#[trigger] pre[j]).language != fc.language by {
        if pre[j].language == fc.language {
            let w = choose|w: int|
                0 <= w < old_totals.len() && (#[trigger] old_totals[w]).0 == (
                #[trigger] pre[j]).language;
        }
    }
    lemma_absent(pre, fc.language);
    assert forall|q: int| 0 <= q < r.len() implies (#[trigger] r[q]).1.files == files_of(
        next,
        r[q].0,
    ) && r[q].1.count == total_of(next, r[q].0) && files_of(next, r[q].0) > 0 by {
        lemma_step(pre, fc, r[q].0);
        if q < old_totals.len() {
            assert(r[q] == old_totals[q]);
        }
    }
    assert forall|a: int, b: int| 0 <= a < b < r.len() implies (#[trigger] r[a]).0 != (
    #[trigger] r[b]).0 by {
        assert(r[a].0 == old_totals[a].0);
        if b < old_totals.len() {
            assert(r[b].0 == old_totals[b].0);
        }
    }
    assert forall|j: int| 0 <= j < next.len() implies exists|q: int|
        0 <= q < r.len() && (#[trigger] r[q]).0 == (#[trigger] next[j]).language by {
        if j < pre.len() {
            assert(next[j] == pre[j]);
            let q = choose|q: int|
                0 <= q < old_totals.len() && (#[trigger] old_totals[q]).0 == (
                #[trigger] pre[j]).language;
            assert(r[q].0 == old_totals[q].0);
        } else {
            assert(r[old_totals.len() as int].0 == next[j].language);
        }
    }
}

fn fits_merge(a: &Count, b: &Count) -> (r: bool)
    ensures
        r == can_merge(*a, *b),
{
    a.code as u64 + b.code as u64 <= u32::MAX as u64 && a.blank as u64 + b.blank as u64
        <= u32::MAX as u64 && a.comments as u64 + b.comments as u64 <= u32::MAX as u64
        && a.total as u64 + b.total as u64 <= u32::MAX as u64
}

/// Groups the records by language: for each language present, the number
/// of its files and their tallies merged. `None` when a merged tally would
/// leave `u32`.
pub fn language_totals(file_counts: &Vec<FileCount>) -> (r: Option<Vec<(Language, CountTotal)>>)
    requires
        file_counts@.len() <= u32::MAX,
    ensures
        r is None <==> !sums_fit(file_counts@),
        match r {
            Some(v) => totals_ok(file_counts@, v@),
            None => true,
        },
{
    let ghost fcs = file_counts@;
    let mut totals: Vec<(Language, CountTotal)> = Vec::new();
    let mut k: usize = 0;
    assert(fcs.take(0) =~= Seq::<FileCount>::empty());
    assert(totals_ok(fcs.take(0), totals@)) by {
        reveal(totals_ok);
    }
    while k < file_counts.len()
        invariant
            k <= fcs.len(),
            fcs == file_counts@,
            fcs.len() <= u32::MAX,
            totals_ok(fcs.take(k as int), totals@),
            forall|m: int|
                0 <= m < k ==> can_merge(
                    total_of(fcs.take(m), #[trigger] fcs[m].language),
                    fcs[m].count,
                ),
        decreases fcs.len() - k,
    {
        let fc = &file_counts[k];
        assert(*fc == fcs[k as int]);
        let ghost pre = fcs.take(k as int);
        assert(fcs.take(k + 1) =~= pre.push(*fc));
        let mut i: usize = 0;
        while i < totals.len()
            invariant
                i <= totals@.len(),
                forall|m: int| 0 <= m < i ==> (#[trigger] totals@[m]).0 != fc.language,
            ensures
                i <= totals@.len(),
                forall|m: int| 0 <= m < i ==> (#[trigger] totals@[m]).0 != fc.language,
                i < totals@.len() ==> totals@[i as int].0 == fc.language,
            decreases totals@.len() - i,
        {
            if totals[i].0 == fc.language {
                break;
            }
            i = i + 1;
        }
        if i < totals.len() {
            let current = totals[i].1;
            proof {
                lemma_totals_entry(pre, totals@, i as int);
            }
            if !fits_merge(&current.count, &fc.count) {
                assert(!sums_fit(fcs)) by {
                    assert(fcs[k as int] == *fc);
                    assert(!can_merge(
                        total_of(fcs.take(k as int), fcs[k as int].language),
                        fcs[k as int].count,
                    ));
                }
                return None;
            }
            proof {
                lemma_files_bound(pre, fc.language);
                lemma_totals_update(pre, *fc, totals@, i as int);
            }
            let mut c = current.count;
            c.merge(&fc.count);
            totals.set(i, (fc.language, CountTotal { files: current.files + 1, count: c }));
        } else {
            proof {
                lemma_totals_push(pre, *fc, totals@);
                lemma_absent_from_totals(pre, *fc, totals@);
            }
            totals.push((fc.language, CountTotal { files: 1, count: fc.count }));
        }
        k = k + 1;
    }
    assert(fcs.take(k as int) =~= fcs);
    Some(totals)
}

} // verus!
