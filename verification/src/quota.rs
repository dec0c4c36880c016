//! The attachment quota: which files to remove, and in which order, to bring the
//! attachments on disk back under the cap.

use vstd::prelude::*;

use crate::clock::{is_now, now_secs};
use crate::rank::{
    in_order, law_sort_is_a_permutation, lemma_sorted_members, level, levels, sort_stably,
    stable_sort_of, Ranked,
};
use crate::text::{lemma_texts_push, texts};

verus! {

/// An attachment file on disk.
pub struct FileEntry {
    /// Its name, which is the hash of its contents.
    pub hash: String,
    /// Its size in bytes.
    pub size: u64,
    /// When it was last written, in Unix seconds.
    pub mtime: u64,
}

impl Ranked for FileEntry {
    /// The larger file stands first.
    open spec fn before(self, other: FileEntry) -> bool {
        self.size > other.size
    }

    proof fn asymmetric(a: FileEntry, b: FileEntry) {
    }

    proof fn level_or_after(a: FileEntry, b: FileEntry, c: FileEntry) {
    }

    fn is_before(&self, other: &FileEntry) -> (r: bool) {
        self.size > other.size
    }
}

/// The bytes that a list of files takes.
pub open spec fn total_size(files: Seq<FileEntry>) -> nat
    decreases files.len(),
{
    if files.len() == 0 {
        0
    } else {
        total_size(files.drop_last()) + files.last().size as nat
    }
}

/// The latest time of writing at which a file may be evicted.
pub open spec fn cutoff(now: u64, grace_secs: u64) -> u64 {
    if now >= grace_secs {
        (now - grace_secs) as u64
    } else {
        0
    }
}

/// The files that may be evicted, in the order they were listed in.
pub open spec fn eligible(files: Seq<FileEntry>, cutoff: u64) -> Seq<FileEntry> {
    files.filter(|f: FileEntry| f.mtime <= cutoff)
}

/// A sweep under way.
pub struct QuotaSweep {
    queue: Vec<FileEntry>,
    outcomes: Vec<bool>,
    total: u64,
    max_bytes: u64,
}

/// What a sweep stands at.
#[verifier::ext_equal]
pub struct SweepState {
    /// The files that may be evicted, in the order they are tried in.
    pub queue: Seq<FileEntry>,
    /// Of each file tried so far, whether it was removed.
    pub outcomes: Seq<bool>,
    /// The bytes on disk.
    pub total: nat,
    /// The cap.
    pub max_bytes: nat,
}

impl SweepState {
    /// Whether another file is to be tried: the bytes on disk exceed the cap and
    /// a file is left.
    pub open spec fn pending(self) -> bool {
        self.total > self.max_bytes && self.outcomes.len() < self.queue.len()
    }

    /// The file to try.
    pub open spec fn next_file(self) -> FileEntry {
        self.queue[self.outcomes.len() as int]
    }

    /// The sweep once the next file was tried.
    pub open spec fn recorded(self, removed: bool) -> SweepState {
        SweepState {
            outcomes: self.outcomes.push(removed),
            total: if !removed {
                self.total
            } else if self.total >= self.next_file().size {
                (self.total - self.next_file().size) as nat
            } else {
                0
            },
            ..self
        }
    }

    /// The hashes of the files that were removed, in the order they were.
    pub open spec fn evicted(self) -> Seq<Seq<char>> {
        removed_hashes(self.queue, self.outcomes)
    }
}

/// The hashes of the files whose removal succeeded.
pub open spec fn removed_hashes(queue: Seq<FileEntry>, outcomes: Seq<bool>) -> Seq<Seq<char>>
    decreases outcomes.len(),
{
    if outcomes.len() == 0 {
        Seq::empty()
    } else {
        let before = removed_hashes(queue, outcomes.drop_last());
        if outcomes.last() {
            before.push(queue[outcomes.len() - 1].hash@)
        } else {
            before
        }
    }
}

/// The sum of a list of file sizes.
pub fn sum_sizes(files: &Vec<FileEntry>) -> (r: u128)
    ensures
        r == total_size(files@),
{
    let mut sum: u128 = 0;
    for i in 0..files.len()
        invariant
            sum == total_size(files@.take(i as int)),
            sum <= i * (u64::MAX as u128),
    {
        assert(files@.take(i as int + 1).drop_last() =~= files@.take(i as int));
        assert((i as u128) * (u64::MAX as u128) + (u64::MAX as u128) <= u128::MAX) by (bit_vector);
        sum = sum + files[i].size as u128;
    }
    assert(files@.take(files@.len() as int) =~= files@);
    sum
}

/// Copies the files that may be evicted.
fn pick_eligible(files: &Vec<FileEntry>, cutoff_secs: u64) -> (r: Vec<FileEntry>)
    ensures
        r@ == eligible(files@, cutoff_secs),
{
    let mut out: Vec<FileEntry> = Vec::new();
    proof {
        reveal(Seq::filter);
    }
    for i in 0..files.len()
        invariant
            out@ == eligible(files@.take(i as int), cutoff_secs),
    {
        proof {
            reveal(Seq::filter);
            assert(files@.take(i as int + 1).drop_last() =~= files@.take(i as int));
        }
        if files[i].mtime <= cutoff_secs {
            out.push(
                FileEntry {
                    hash: files[i].hash.clone(),
                    size: files[i].size,
                    mtime: files[i].mtime,
                },
            );
        }
    }
    assert(files@.take(files@.len() as int) =~= files@);
    out
}

impl View for QuotaSweep {
    type V = SweepState;

    closed spec fn view(&self) -> SweepState {
        SweepState {
            queue: self.queue@,
            outcomes: self.outcomes@,
            total: self.total as nat,
            max_bytes: self.max_bytes as nat,
        }
    }
}

/// Whether a sweep is what begins over the files of a directory at a time.
pub open spec fn begins(
    sweep: SweepState,
    files: Seq<FileEntry>,
    max_bytes: u64,
    grace_secs: u64,
    now: u64,
) -> bool {
    &&& stable_sort_of(sweep.queue, eligible(files, cutoff(now, grace_secs)))
    &&& sweep.outcomes.len() == 0
    &&& sweep.total == total_size(files)
    &&& sweep.max_bytes == max_bytes
}

impl QuotaSweep {
    /// No more files were tried than there are.
    #[verifier::type_invariant]
    spec fn within_queue(self) -> bool {
        self.outcomes@.len() <= self.queue@.len()
    }

    /// Begins a sweep over the files of the attachment directory: those written
    /// no later than the grace period before `now` may go, the largest first.
    pub fn begin_at(files: &Vec<FileEntry>, max_bytes: u64, grace_secs: u64, now: u64) -> (r:
        QuotaSweep)
        requires
            total_size(files@) <= u64::MAX,
        ensures
            begins(r@, files@, max_bytes, grace_secs, now),
    {
        let total: u64 = sum_sizes(files) as u64;
        let picked: Vec<FileEntry> = pick_eligible(files, now.saturating_sub(grace_secs));
        QuotaSweep { queue: sort_stably(picked), outcomes: Vec::new(), total, max_bytes }
    }

    /// Begins a sweep now.
    pub fn begin(files: &Vec<FileEntry>, max_bytes: u64, grace_secs: u64) -> (r: QuotaSweep)
        requires
            total_size(files@) <= u64::MAX,
        ensures
            exists|now: u64|
                is_now(now) && #[trigger] begins(r@, files@, max_bytes, grace_secs, now),
    {
        let now: u64 = now_secs();
        QuotaSweep::begin_at(files, max_bytes, grace_secs, now)
    }

    /// The name of the next file to remove, or none where the sweep is over.
    pub fn next(&self) -> (r: Option<String>)
        ensures
            r is Some <==> self@.pending(),
            r matches Some(h) ==> h@ == self@.next_file().hash@,
    {
        if self.total > self.max_bytes && self.outcomes.len() < self.queue.len() {
            Some(self.queue[self.outcomes.len()].hash.clone())
        } else {
            None
        }
    }

    /// Takes note of whether the next file could be removed.
    pub fn record(&mut self, removed: bool)
        requires
            old(self)@.pending(),
        ensures
            final(self)@ == old(self)@.recorded(removed),
    {
        if removed {
            self.total = self.total.saturating_sub(self.queue[self.outcomes.len()].size);
        }
        let mut outcomes: Vec<bool> = Vec::new();
        std::mem::swap(&mut outcomes, &mut self.outcomes);
        outcomes.push(removed);
        self.outcomes = outcomes;
    }

    /// The hashes of the files that were removed.
    pub fn evicted(&self) -> (r: Vec<String>)
        ensures
            texts(r@) == self@.evicted(),
    {
        proof {
            use_type_invariant(self);
        }
        let mut out: Vec<String> = Vec::new();
        assert(texts(out@) =~= removed_hashes(self.queue@, self.outcomes@.take(0)));
        for i in 0..self.outcomes.len()
            invariant
                self.outcomes@.len() <= self.queue@.len(),
                texts(out@) == removed_hashes(self.queue@, self.outcomes@.take(i as int)),
        {
            proof {
                assert(self.outcomes@.take(i as int + 1).drop_last() =~= self.outcomes@.take(
                    i as int,
                ));
                lemma_texts_push(out@, self.queue@[i as int].hash);
            }
            if self.outcomes[i] {
                out.push(self.queue[i].hash.clone());
            }
        }
        assert(self.outcomes@.take(self.outcomes@.len() as int) =~= self.outcomes@);
        out
    }
}

// ---------------------------------------------------------------------- laws

/// A sweep after a row of files was tried.
pub open spec fn sweep_after(start: SweepState, outcomes: Seq<bool>) -> SweepState
    decreases outcomes.len(),
{
    if outcomes.len() == 0 {
        start
    } else {
        sweep_after(start, outcomes.drop_last()).recorded(outcomes.last())
    }
}

/// Whether a sweep can be carried on in this way: each file was tried while it
/// was the next.
pub open spec fn is_run(start: SweepState, outcomes: Seq<bool>) -> bool {
    forall|k: int|
        0 <= k < outcomes.len() ==> (#[trigger] sweep_after(start, outcomes.take(k))).pending()
}

/// The bytes that a row of removals freed.
pub open spec fn freed(queue: Seq<FileEntry>, outcomes: Seq<bool>) -> nat
    decreases outcomes.len(),
{
    if outcomes.len() == 0 {
        0
    } else if outcomes.last() {
        freed(queue, outcomes.drop_last()) + queue[outcomes.len() - 1].size as nat
    } else {
        freed(queue, outcomes.drop_last())
    }
}

/// A part of a run is a run.
proof fn lemma_run_prefix(start: SweepState, outcomes: Seq<bool>)
    requires
        outcomes.len() > 0,
        is_run(start, outcomes),
    ensures
        is_run(start, outcomes.drop_last()),
        sweep_after(start, outcomes.drop_last()).pending(),
{
    let earlier = outcomes.drop_last();
    assert forall|k: int| 0 <= k < earlier.len() implies (#[trigger] sweep_after(
        start,
        earlier.take(k),
    )).pending() by {
        assert(earlier.take(k) =~= outcomes.take(k));
    }
    assert(outcomes.take(outcomes.len() - 1) =~= earlier);
}

/// A run goes down the queue without leaving it, and changes neither it nor the
/// cap.
proof fn lemma_run_keeps(start: SweepState, outcomes: Seq<bool>)
    requires
        start.outcomes.len() == 0,
        is_run(start, outcomes),
    ensures
        sweep_after(start, outcomes).queue == start.queue,
        sweep_after(start, outcomes).max_bytes == start.max_bytes,
        sweep_after(start, outcomes).outcomes == outcomes,
        outcomes.len() <= start.queue.len(),
    decreases outcomes.len(),
{
    if outcomes.len() > 0 {
        lemma_run_prefix(start, outcomes);
        lemma_run_keeps(start, outcomes.drop_last());
        assert(outcomes.drop_last().push(outcomes.last()) =~= outcomes);
    } else {
        assert(start.outcomes =~= outcomes);
    }
}

/// A board that is within its cap loses nothing.
pub proof fn law_within_cap_nothing_is_tried(start: SweepState, outcomes: Seq<bool>)
    requires
        start.total <= start.max_bytes,
        is_run(start, outcomes),
    ensures
        outcomes.len() == 0,
{
    if outcomes.len() > 0 {
        assert(sweep_after(start, outcomes.take(0)).pending());
        assert(outcomes.take(0) =~= Seq::<bool>::empty());
    }
}

/// A file is tried only while the bytes on disk exceed the cap: nothing is
/// removed beyond what is needed.
pub proof fn law_tried_only_over_the_cap(start: SweepState, outcomes: Seq<bool>, k: int)
    requires
        start.outcomes.len() == 0,
        is_run(start, outcomes),
        0 <= k < outcomes.len(),
    ensures
        sweep_after(start, outcomes.take(k)).total > start.max_bytes,
{
    assert(sweep_after(start, outcomes.take(k)).pending());
    assert forall|j: int| 0 <= j < k implies (#[trigger] sweep_after(
        start,
        outcomes.take(k).take(j),
    )).pending() by {
        assert(outcomes.take(k).take(j) =~= outcomes.take(j));
    }
    lemma_run_keeps(start, outcomes.take(k));
}

/// A sweep ends back under the cap, or when every file that may go was tried.
pub proof fn law_sweep_ends(start: SweepState, outcomes: Seq<bool>)
    requires
        start.outcomes.len() == 0,
        is_run(start, outcomes),
        !sweep_after(start, outcomes).pending(),
    ensures
        sweep_after(start, outcomes).total <= start.max_bytes || outcomes.len()
            == start.queue.len(),
{
    lemma_run_keeps(start, outcomes);
}

/// What is left on disk and what was freed add up to what was there.
pub proof fn law_bytes_are_accounted_for(
    start: SweepState,
    files: Seq<FileEntry>,
    max_bytes: u64,
    grace_secs: u64,
    now: u64,
    outcomes: Seq<bool>,
)
    requires
        begins(start, files, max_bytes, grace_secs, now),
        is_run(start, outcomes),
    ensures
        sweep_after(start, outcomes).total + freed(start.queue, outcomes) == total_size(files),
{
    let picked = eligible(files, cutoff(now, grace_secs));
    law_sort_is_a_permutation(start.queue, picked);
    lemma_total_size_same(start.queue, picked);
    lemma_total_size_filter(files, |f: FileEntry| f.mtime <= cutoff(now, grace_secs));
    lemma_freed(start, outcomes);
}

/// As above, for any queue that takes no more than what is on disk.
proof fn lemma_freed(start: SweepState, outcomes: Seq<bool>)
    requires
        start.outcomes.len() == 0,
        start.total >= total_size(start.queue),
        is_run(start, outcomes),
    ensures
        sweep_after(start, outcomes).total + freed(start.queue, outcomes) == start.total,
        freed(start.queue, outcomes) <= total_size(start.queue.take(outcomes.len() as int)),
    decreases outcomes.len(),
{
    lemma_run_keeps(start, outcomes);
    if outcomes.len() > 0 {
        let n = outcomes.len() as int;
        lemma_run_prefix(start, outcomes);
        lemma_run_keeps(start, outcomes.drop_last());
        lemma_freed(start, outcomes.drop_last());
        assert(start.queue.take(n).drop_last() =~= start.queue.take(n - 1));
        lemma_total_size_grows(start.queue, n);
    }
}

/// A file that is taken out takes its bytes with it.
proof fn lemma_total_size_remove(files: Seq<FileEntry>, i: int)
    requires
        0 <= i < files.len(),
    ensures
        total_size(files) == total_size(files.remove(i)) + files[i].size,
    decreases files.len(),
{
    let rest = files.drop_last();
    if i < rest.len() {
        lemma_total_size_remove(rest, i);
        assert(files.remove(i).drop_last() =~= rest.remove(i));
    } else {
        assert(files.remove(i) =~= rest);
    }
}

/// The same files in another order take the same bytes.
proof fn lemma_total_size_same(a: Seq<FileEntry>, b: Seq<FileEntry>)
    requires
        a.to_multiset() == b.to_multiset(),
    ensures
        total_size(a) == total_size(b),
    decreases a.len(),
{
    broadcast use vstd::seq_lib::group_to_multiset_ensures;

    assert(a.len() == a.to_multiset().len() && b.len() == b.to_multiset().len());
    if a.len() > 0 {
        let x = a.last();
        assert(a[a.len() - 1] == x);
        assert(a.contains(x));
        assert(b.to_multiset().count(x) > 0);
        assert(b.contains(x));
        let i = choose|i: int| 0 <= i < b.len() && b[i] == x;
        let n = a.len() - 1;
        assert(a.remove(n) =~= a.drop_last());
        assert(a.remove(n).to_multiset() == a.to_multiset().remove(a[n]));
        assert(b.remove(i).to_multiset() == b.to_multiset().remove(b[i]));
        lemma_total_size_same(a.drop_last(), b.remove(i));
        lemma_total_size_remove(b, i);
    }
}

/// Some of the files take no more than all of them.
proof fn lemma_total_size_filter(files: Seq<FileEntry>, test: spec_fn(FileEntry) -> bool)
    ensures
        total_size(files.filter(test)) <= total_size(files),
    decreases files.len(),
{
    reveal(Seq::filter);
    if files.len() > 0 {
        let rest = files.drop_last();
        lemma_total_size_filter(rest, test);
        if test(files.last()) {
            assert(files.filter(test).drop_last() =~= rest.filter(test));
        }
    }
}

/// More files take more bytes.
proof fn lemma_total_size_grows(files: Seq<FileEntry>, k: int)
    requires
        0 <= k <= files.len(),
    ensures
        total_size(files.take(k)) <= total_size(files),
    decreases files.len() - k,
{
    if k < files.len() {
        assert(files.take(k + 1).drop_last() =~= files.take(k));
        lemma_total_size_grows(files, k + 1);
    } else {
        assert(files.take(k) =~= files);
    }
}

/// Only files that have outlived the grace period are ever tried; one that is
/// stamped with the epoch always has.
pub proof fn law_grace_is_kept(
    start: SweepState,
    files: Seq<FileEntry>,
    max_bytes: u64,
    grace_secs: u64,
    now: u64,
    k: int,
)
    requires
        begins(start, files, max_bytes, grace_secs, now),
        0 <= k < start.queue.len(),
    ensures
        files.contains(start.queue[k]),
        start.queue[k].mtime + grace_secs <= now || start.queue[k].mtime == 0,
{
    let f = start.queue[k];
    let test = |g: FileEntry| g.mtime <= cutoff(now, grace_secs);
    assert(start.queue.contains(f));
    lemma_sorted_members(start.queue, eligible(files, cutoff(now, grace_secs)), f);
    lemma_picked(files, test, f);
}

/// What a filter keeps stands in the list and passes the test.
proof fn lemma_picked(files: Seq<FileEntry>, test: spec_fn(FileEntry) -> bool, f: FileEntry)
    requires
        files.filter(test).contains(f),
    ensures
        files.contains(f),
        test(f),
    decreases files.len(),
{
    reveal(Seq::filter);
    if files.len() > 0 {
        let rest = files.drop_last();
        let kept = files.filter(test);
        let i = choose|i: int| 0 <= i < kept.len() && kept[i] == f;
        if test(files.last()) && i == kept.len() - 1 {
            assert(files[files.len() - 1] == f);
        } else {
            assert(rest.filter(test)[i] == f);
            lemma_picked(rest, test, f);
            let j = choose|j: int| 0 <= j < rest.len() && rest[j] == f;
            assert(files[j] == f);
        }
    }
}

/// Every file that may go is in the queue.
pub proof fn law_all_eligible_are_queued(
    start: SweepState,
    files: Seq<FileEntry>,
    max_bytes: u64,
    grace_secs: u64,
    now: u64,
    k: int,
)
    requires
        begins(start, files, max_bytes, grace_secs, now),
        0 <= k < files.len(),
        files[k].mtime <= cutoff(now, grace_secs),
    ensures
        start.queue.contains(files[k]),
{
    let test = |g: FileEntry| g.mtime <= cutoff(now, grace_secs);
    files.lemma_filter_contains(test, k);
    lemma_sorted_members(start.queue, eligible(files, cutoff(now, grace_secs)), files[k]);
}

/// The largest files go first: no file is tried before a larger one.
pub proof fn law_largest_first(
    start: SweepState,
    files: Seq<FileEntry>,
    max_bytes: u64,
    grace_secs: u64,
    now: u64,
    i: int,
    j: int,
)
    requires
        begins(start, files, max_bytes, grace_secs, now),
        0 <= i < j < start.queue.len(),
    ensures
        start.queue[i].size >= start.queue[j].size,
{
    assert(in_order(start.queue));
    assert(!start.queue[j].before(start.queue[i]));
}

/// A file may go exactly where it is listed and has been there for the grace
/// period; one that is stamped with the epoch always may.
pub proof fn law_queue_is_what_may_go(
    start: SweepState,
    files: Seq<FileEntry>,
    max_bytes: u64,
    grace_secs: u64,
    now: u64,
    f: FileEntry,
)
    requires
        begins(start, files, max_bytes, grace_secs, now),
    ensures
        start.queue.contains(f) <==> files.contains(f) && (f.mtime + grace_secs <= now || f.mtime
            == 0),
{
    let test = |g: FileEntry| g.mtime <= cutoff(now, grace_secs);
    lemma_sorted_members(start.queue, eligible(files, cutoff(now, grace_secs)), f);
    if files.contains(f) && (f.mtime + grace_secs <= now || f.mtime == 0) {
        let k = choose|k: int| 0 <= k < files.len() && files[k] == f;
        files.lemma_filter_contains(test, k);
    }
    if start.queue.contains(f) {
        lemma_picked(files, test, f);
    }
}

/// Every file that was written no later than the grace period before now is in
/// the queue.
pub proof fn law_files_past_their_grace_are_queued(
    start: SweepState,
    files: Seq<FileEntry>,
    max_bytes: u64,
    grace_secs: u64,
    now: u64,
    k: int,
)
    requires
        begins(start, files, max_bytes, grace_secs, now),
        0 <= k < files.len(),
        files[k].mtime + grace_secs <= now,
    ensures
        start.queue.contains(files[k]),
{
    law_queue_is_what_may_go(start, files, max_bytes, grace_secs, now, files[k]);
}

/// Files of one size are tried in the order they were listed in, each as often as
/// it was listed.
pub proof fn law_equal_sizes_keep_their_order(
    start: SweepState,
    files: Seq<FileEntry>,
    max_bytes: u64,
    grace_secs: u64,
    now: u64,
    size: u64,
)
    requires
        begins(start, files, max_bytes, grace_secs, now),
    ensures
        start.queue.filter(|f: FileEntry| f.size == size) == files.filter(
            |f: FileEntry| (f.mtime + grace_secs <= now || f.mtime == 0) && f.size == size,
        ),
{
    let x = FileEntry { hash: arbitrary(), size, mtime: 0 };
    let picked = eligible(files, cutoff(now, grace_secs));
    let same = |f: FileEntry| f.size == size;
    let both = |f: FileEntry| (f.mtime + grace_secs <= now || f.mtime == 0) && f.size == size;
    let test = |g: FileEntry| g.mtime <= cutoff(now, grace_secs);
    assert(levels(start.queue, x) == levels(picked, x));
    assert forall|f: FileEntry| level(x, f) == (f.size == size) by {}
    lemma_filter_alike(start.queue, |y: FileEntry| level(x, y), same);
    lemma_filter_alike(picked, |y: FileEntry| level(x, y), same);
    lemma_filter_twice(files, test, same, both);
}

/// Tests that agree keep the same.
proof fn lemma_filter_alike(
    s: Seq<FileEntry>,
    p: spec_fn(FileEntry) -> bool,
    q: spec_fn(FileEntry) -> bool,
)
    requires
        forall|f: FileEntry| #[trigger] p(f) == q(f),
    ensures
        s.filter(p) == s.filter(q),
    decreases s.len(),
{
    reveal(Seq::filter);
    if s.len() > 0 {
        lemma_filter_alike(s.drop_last(), p, q);
        assert(p(s.last()) == q(s.last()));
    }
}

/// One test after another keeps what passes both.
proof fn lemma_filter_twice(
    s: Seq<FileEntry>,
    p: spec_fn(FileEntry) -> bool,
    q: spec_fn(FileEntry) -> bool,
    both: spec_fn(FileEntry) -> bool,
)
    requires
        forall|f: FileEntry| #[trigger] both(f) == (p(f) && q(f)),
    ensures
        s.filter(p).filter(q) == s.filter(both),
    decreases s.len(),
{
    reveal(Seq::filter);
    if s.len() > 0 {
        let rest = s.drop_last();
        lemma_filter_twice(rest, p, q, both);
        assert(both(s.last()) == (p(s.last()) && q(s.last())));
        if p(s.last()) {
            assert(s.filter(p).drop_last() =~= rest.filter(p));
            assert(s.filter(p).last() == s.last());
        }
    }
}

/// The bytes of a list of files are those of each of them.
pub proof fn law_total_counts_every_file(files: Seq<FileEntry>, f: FileEntry)
    ensures
        total_size(Seq::<FileEntry>::empty()) == 0,
        total_size(files.push(f)) == total_size(files) + f.size,
{
    assert(files.push(f).drop_last() =~= files);
}

/// A sweep begins with what is on disk and with the cap it was given, and nothing
/// tried yet. It goes on exactly while the bytes on disk exceed the cap and a file
/// is left, and tries the files in the order of the queue.
pub proof fn law_sweep_goes_down_the_queue(
    start: SweepState,
    files: Seq<FileEntry>,
    max_bytes: u64,
    grace_secs: u64,
    now: u64,
    outcomes: Seq<bool>,
)
    requires
        begins(start, files, max_bytes, grace_secs, now),
        is_run(start, outcomes),
    ensures
        ({
            let s = sweep_after(start, outcomes);
            let left = total_size(files) - freed(start.queue, outcomes);
            &&& s.pending() <==> left > max_bytes && outcomes.len() < start.queue.len()
            &&& s.pending() ==> s.next_file() == start.queue[outcomes.len() as int]
        }),
{
    lemma_run_keeps(start, outcomes);
    law_bytes_are_accounted_for(start, files, max_bytes, grace_secs, now, outcomes);
}

/// The files that a sweep names as gone are those whose removal succeeded, in the
/// order they were tried in.
pub proof fn law_evicted_are_the_removed(queue: Seq<FileEntry>, outcomes: Seq<bool>, last: bool)
    requires
        outcomes.len() < queue.len(),
    ensures
        removed_hashes(queue, Seq::empty()) == Seq::<Seq<char>>::empty(),
        last ==> removed_hashes(queue, outcomes.push(last)) == removed_hashes(queue, outcomes).push(
            queue[outcomes.len() as int].hash@,
        ),
        !last ==> removed_hashes(queue, outcomes.push(last)) == removed_hashes(queue, outcomes),
{
    assert(outcomes.push(last).drop_last() =~= outcomes);
}

/// Where every removal succeeds and no file is within its grace, a sweep of a
/// board that is over its cap ends at the cap or below it.
pub proof fn law_sweep_gets_under_the_cap(
    start: SweepState,
    files: Seq<FileEntry>,
    max_bytes: u64,
    grace_secs: u64,
    now: u64,
    outcomes: Seq<bool>,
)
    requires
        begins(start, files, max_bytes, grace_secs, now),
        is_run(start, outcomes),
        !sweep_after(start, outcomes).pending(),
        forall|i: int| 0 <= i < outcomes.len() ==> #[trigger] outcomes[i],
        forall|k: int|
            0 <= k < files.len() ==> (#[trigger] files[k]).mtime + grace_secs <= now,
    ensures
        total_size(files) - freed(start.queue, outcomes) <= max_bytes,
{
    let picked = eligible(files, cutoff(now, grace_secs));
    let test = |f: FileEntry| f.mtime <= cutoff(now, grace_secs);
    law_sweep_goes_down_the_queue(start, files, max_bytes, grace_secs, now, outcomes);
    lemma_run_keeps(start, outcomes);
    lemma_freed_all(start.queue, outcomes);
    lemma_filter_all(files, test);
    law_sort_is_a_permutation(start.queue, picked);
    lemma_total_size_same(start.queue, picked);
    assert(start.queue.take(start.queue.len() as int) =~= start.queue);
}

/// Removals that all succeed free all that was tried.
proof fn lemma_freed_all(queue: Seq<FileEntry>, outcomes: Seq<bool>)
    requires
        outcomes.len() <= queue.len(),
        forall|i: int| 0 <= i < outcomes.len() ==> #[trigger] outcomes[i],
    ensures
        freed(queue, outcomes) == total_size(queue.take(outcomes.len() as int)),
    decreases outcomes.len(),
{
    if outcomes.len() > 0 {
        let n = outcomes.len() as int;
        let fewer = outcomes.drop_last();
        assert forall|i: int| 0 <= i < fewer.len() implies #[trigger] fewer[i] by {
            assert(fewer[i] == outcomes[i]);
        }
        lemma_freed_all(queue, fewer);
        assert(queue.take(n).drop_last() =~= queue.take(n - 1));
        assert(outcomes[n - 1]);
    }
}

/// A test that every file passes keeps them all.
proof fn lemma_filter_all(files: Seq<FileEntry>, test: spec_fn(FileEntry) -> bool)
    requires
        forall|k: int| 0 <= k < files.len() ==> test(#[trigger] files[k]),
    ensures
        files.filter(test) == files,
    decreases files.len(),
{
    reveal(Seq::filter);
    if files.len() > 0 {
        let rest = files.drop_last();
        assert forall|k: int| 0 <= k < rest.len() implies test(#[trigger] rest[k]) by {
            assert(rest[k] == files[k]);
        }
        lemma_filter_all(rest, test);
        assert(test(files[files.len() - 1]));
        assert(files.filter(test) =~= files);
    }
}

/// A removal that succeeded adds its file to those that a sweep names as gone, one
/// that failed adds none, and each moves the sweep on by one file.
pub proof fn law_each_removal_is_recorded(s: SweepState, removed: bool)
    requires
        s.pending(),
    ensures
        removed ==> s.recorded(removed).evicted() == s.evicted().push(
            s.queue[s.outcomes.len() as int].hash@,
        ),
        !removed ==> s.recorded(removed).evicted() == s.evicted(),
        s.recorded(removed).outcomes.len() == s.outcomes.len() + 1,
        s.recorded(removed).queue == s.queue,
        s.recorded(removed).max_bytes == s.max_bytes,
        !removed ==> s.recorded(removed).total == s.total,
        removed && s.total >= s.queue[s.outcomes.len() as int].size ==> s.recorded(removed).total
            + s.queue[s.outcomes.len() as int].size == s.total,
{
    law_evicted_are_the_removed(s.queue, s.outcomes, removed);
}

} // verus!
