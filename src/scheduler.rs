//! The run scheduler: which configurations run, in what order, and the
//! crash-safe sequence of directory operations around each run.
//!
//! The scheduler decides; its caller performs each step it hands out (a
//! directory operation, or the experiment's pre-run, run and post-run) and
//! reports back. A failed directory operation ends the whole run; a failed
//! experiment step only marks its configuration as failed.
use vstd::prelude::*;

use crate::hashing::{blake3_hex, content_hash, is_content_hash};
use crate::store::{
    failed_dir_name, failed_name, lemma_name_lengths, lemma_names_apart, running_dir_name,
    running_name, state_in, RunState, StateStore,
};

verus! {

/// No earlier position holds the same hash.
pub open spec fn first_occurrence(hashes: Seq<Seq<char>>, i: int) -> bool {
    forall|j: int| 0 <= j < i ==> hashes[j] != hashes[i]
}

/// A configuration is run unless it has completed, or has failed while
/// failed configurations are not retried.
pub open spec fn needs_run(dir: Set<Seq<char>>, hash: Seq<char>, retry_failed: bool) -> bool {
    match state_in(dir, hash) {
        RunState::Completed => false,
        RunState::Failed => retry_failed,
        _ => true,
    }
}

/// The positions that are run, in enumeration order: the first occurrence of
/// each hash, when it needs a run.
pub open spec fn scheduled(hashes: Seq<Seq<char>>, dir: Set<Seq<char>>, retry_failed: bool) -> Seq<
    int,
>
    decreases hashes.len(),
{
    if hashes.len() == 0 {
        Seq::empty()
    } else {
        let k = hashes.len() - 1;
        let rest = scheduled(hashes.drop_last(), dir, retry_failed);
        if first_occurrence(hashes, k) && needs_run(dir, hashes[k], retry_failed) {
            rest.push(k)
        } else {
            rest
        }
    }
}

/// The number of positions whose hash occurred before.
pub open spec fn duplicate_count(hashes: Seq<Seq<char>>) -> nat
    decreases hashes.len(),
{
    if hashes.len() == 0 {
        0
    } else {
        duplicate_count(hashes.drop_last()) + if first_occurrence(hashes, hashes.len() - 1) {
            0nat
        } else {
            1nat
        }
    }
}

/// The number of first occurrences that need no run.
pub open spec fn skipped_count(hashes: Seq<Seq<char>>, dir: Set<Seq<char>>, retry_failed: bool) -> nat
    decreases hashes.len(),
{
    if hashes.len() == 0 {
        0
    } else {
        let k = hashes.len() - 1;
        skipped_count(hashes.drop_last(), dir, retry_failed) + if first_occurrence(hashes, k)
            && !needs_run(dir, hashes[k], retry_failed) {
            1nat
        } else {
            0nat
        }
    }
}

pub open spec fn string_views(v: Seq<String>) -> Seq<Seq<char>> {
    v.map_values(|s: String| s@)
}

pub open spec fn index_views(v: Seq<usize>) -> Seq<int> {
    v.map_values(|i: usize| i as int)
}

proof fn lemma_first_occurrence_prefix(hashes: Seq<Seq<char>>, n: int, i: int)
    requires
        0 <= i < n <= hashes.len(),
    ensures
        first_occurrence(hashes.subrange(0, n), i) == first_occurrence(hashes, i),
{
    let p = hashes.subrange(0, n);
    assert forall|j: int| 0 <= j < i implies p[j] == hashes[j] by {}
    assert(p[i] == hashes[i]);
}

/// What `scheduled` holds: exactly the first occurrences that need a run, in
/// increasing order.
pub proof fn lemma_scheduled_members(hashes: Seq<Seq<char>>, dir: Set<Seq<char>>, retry_failed: bool)
    ensures
        forall|x: int|
            #[trigger] scheduled(hashes, dir, retry_failed).contains(x) <==> (0 <= x < hashes.len()
                && first_occurrence(hashes, x) && needs_run(dir, hashes[x], retry_failed)),
        forall|a: int, b: int|
            0 <= a < b < scheduled(hashes, dir, retry_failed).len() ==> scheduled(
                hashes,
                dir,
                retry_failed,
            )[a] < scheduled(hashes, dir, retry_failed)[b],
        forall|a: int|
            0 <= a < scheduled(hashes, dir, retry_failed).len() ==> 0 <= #[trigger] scheduled(
                hashes,
                dir,
                retry_failed,
            )[a] < hashes.len(),
    decreases hashes.len(),
{
    if hashes.len() > 0 {
        let k = hashes.len() - 1;
        let front = hashes.drop_last();
        lemma_scheduled_members(front, dir, retry_failed);
        assert forall|x: int| 0 <= x < k implies first_occurrence(front, x) == first_occurrence(
            hashes,
            x,
        ) && front[x] == hashes[x] by {
            lemma_first_occurrence_prefix(hashes, k, x);
        }
        let s = scheduled(hashes, dir, retry_failed);
        let rest = scheduled(front, dir, retry_failed);
        assert forall|x: int| s.contains(x) <==> (0 <= x < hashes.len() && first_occurrence(
            hashes,
            x,
        ) && needs_run(dir, hashes[x], retry_failed)) by {
            if s.contains(x) {
                if x != k {
                    let i = choose|i: int| 0 <= i < s.len() && s[i] == x;
                    if i < rest.len() {
                        assert(rest[i] == x);
                    }
                    assert(rest.contains(x));
                }
            }
            if 0 <= x < hashes.len() && first_occurrence(hashes, x) && needs_run(
                dir,
                hashes[x],
                retry_failed,
            ) {
                if x == k {
                    assert(s[s.len() - 1] == x);
                } else {
                    assert(rest.contains(x));
                    let i = choose|i: int| 0 <= i < rest.len() && rest[i] == x;
                    assert(s[i] == x);
                }
            }
        }
    }
}

/// Equal hashes at two positions: the later one is no first occurrence.
pub proof fn lemma_first_occurrences_differ(hashes: Seq<Seq<char>>, a: int, b: int)
    requires
        0 <= a < b < hashes.len(),
        first_occurrence(hashes, b),
    ensures
        hashes[a] != hashes[b],
{
}

/// The outcome of enumerating the configurations' hashes.
pub struct Plan {
    /// Positions to run, in enumeration order.
    pub to_run: Vec<usize>,
    pub duplicates: usize,
    pub skipped: usize,
}

/// Deduplicates the hashes (the first occurrence wins) and leaves out those
/// whose configurations need no run.
pub fn plan(hashes: &Vec<String>, store: &StateStore, retry_failed: bool) -> (r: Plan)
    ensures
        index_views(r.to_run@) == scheduled(string_views(hashes@), store@, retry_failed),
        r.duplicates == duplicate_count(string_views(hashes@)),
        r.skipped == skipped_count(string_views(hashes@), store@, retry_failed),
{
    let ghost hs = string_views(hashes@);
    let mut to_run: Vec<usize> = Vec::new();
    let mut duplicates: usize = 0;
    let mut skipped: usize = 0;
    let mut i: usize = 0;
    while i < hashes.len()
        invariant
            i <= hashes@.len(),
            hs == string_views(hashes@),
            index_views(to_run@) == scheduled(hs.subrange(0, i as int), store@, retry_failed),
            duplicates == duplicate_count(hs.subrange(0, i as int)),
            skipped == skipped_count(hs.subrange(0, i as int), store@, retry_failed),
            to_run@.len() + duplicates + skipped == i,
        decreases hashes@.len() - i,
    {
        let mut first = true;
        let mut j: usize = 0;
        while j < i
            invariant
                j <= i < hashes@.len(),
                hs == string_views(hashes@),
                first == (forall|m: int| 0 <= m < j ==> hs[m] != hs[i as int]),
            decreases i - j,
        {
            assert(hs[j as int] == hashes@[j as int]@ && hs[i as int] == hashes@[i as int]@);
            if hashes[j] == hashes[i] {
                first = false;
            }
            j = j + 1;
        }
        let ghost pre = hs.subrange(0, i as int);
        let ghost next = hs.subrange(0, i + 1);
        assert(next.drop_last() =~= pre);
        assert(next[i as int] == hs[i as int]);
        proof {
            lemma_first_occurrence_prefix(hs, i + 1, i as int);
        }
        if !first {
            duplicates = duplicates + 1;
        } else {
            let state = store.state(&hashes[i]);
            let run = match state {
                RunState::Completed => false,
                RunState::Failed => retry_failed,
                _ => true,
            };
            if run {
                to_run.push(i);
                assert(index_views(to_run@) =~= index_views(to_run@.drop_last()).push(i as int));
            } else {
                skipped = skipped + 1;
            }
        }
        i = i + 1;
    }
    assert(hs.subrange(0, hashes@.len() as int) =~= hs);
    Plan { to_run, duplicates, skipped }
}

/// Where the scheduler stands with its current configuration.
#[derive(Clone, Copy, Debug, PartialEq, Eq, Structural)]
pub enum Phase {
    /// Before the running marker exists.
    Prepare,
    /// The marker exists; the experiment's steps are due.
    Execute,
    /// The experiment's steps are over; the commit rename is due.
    Commit { succeeded: bool },
}

/// The next thing the caller must do.
pub enum Step {
    /// Remove the directory of an earlier failed attempt (failed runs are
    /// retried only when asked for).
    ClearFailed { dir: String },
    /// Create the running marker directory.
    CreateRunning { dir: String },
    /// Persist the configuration at position `index` into `dir`, then run its
    /// pre-run, run and post-run steps.
    Execute { index: usize, dir: String },
    /// Rename the marker directory to its terminal name.
    Commit { from: String, to: String },
    /// Every configuration has been dealt with.
    Done,
}

/// The counts reported at the end of a pass.
#[derive(Clone, Copy, Debug, PartialEq, Eq, Structural)]
pub struct Summary {
    pub executed: usize,
    pub failed: usize,
    pub skipped: usize,
    pub duplicates: usize,
}

pub open spec fn failures(outcomes: Seq<bool>) -> nat
    decreases outcomes.len(),
{
    if outcomes.len() == 0 {
        0
    } else {
        failures(outcomes.drop_last()) + if outcomes.last() {
            0nat
        } else {
            1nat
        }
    }
}

proof fn lemma_failures_bound(outcomes: Seq<bool>)
    ensures
        failures(outcomes) <= outcomes.len(),
    decreases outcomes.len(),
{
    if outcomes.len() > 0 {
        lemma_failures_bound(outcomes.drop_last());
    }
}

/// The sequential, crash-safe run of a list of configurations.
pub struct Scheduler {
    /// The hash of each configuration, in enumeration order.
    pub hashes: Vec<String>,
    /// The positions to run, in order.
    pub queue: Vec<usize>,
    /// How many of `queue` are done.
    pub pos: usize,
    pub phase: Phase,
    /// The entries of the experiment root.
    pub store: StateStore,
    pub retry_failed: bool,
    pub executed: usize,
    pub failed: usize,
    pub skipped: usize,
    pub duplicates: usize,
    /// Whether each finished run succeeded.
    pub outcomes: Ghost<Seq<bool>>,
    /// The entries found before the first step.
    pub initial: Ghost<Set<Seq<char>>>,
}

impl Scheduler {
    pub open spec fn hash_seq(&self) -> Seq<Seq<char>> {
        string_views(self.hashes@)
    }

    /// The hash at position `q` of the queue.
    pub open spec fn queued_hash(&self, q: int) -> Seq<char> {
        self.hash_seq()[self.queue@[q] as int]
    }

    pub open spec fn current_hash(&self) -> Seq<char> {
        self.queued_hash(self.pos as int)
    }

    pub open spec fn is_finished(&self) -> bool {
        self.pos == self.queue@.len()
    }

    pub open spec fn wf(&self) -> bool {
        let hs = self.hash_seq();
        &&& forall|k: int| 0 <= k < hs.len() ==> is_content_hash(#[trigger] hs[k])
        &&& index_views(self.queue@) == scheduled(hs, self.initial@, self.retry_failed)
        &&& self.pos <= self.queue@.len()
        &&& self.outcomes@.len() == self.pos
        &&& self.executed == self.pos
        &&& self.failed == failures(self.outcomes@)
        &&& self.skipped == skipped_count(hs, self.initial@, self.retry_failed)
        &&& self.duplicates == duplicate_count(hs)
        &&& self.is_finished() ==> self.phase == Phase::Prepare
        // configurations that needed no run still need none
        &&& forall|k: int|
            0 <= k < hs.len() && first_occurrence(hs, k) && !needs_run(
                self.initial@,
                hs[k],
                self.retry_failed,
            ) ==> !needs_run(self.store@, #[trigger] hs[k], self.retry_failed)
        // finished runs stand under their terminal names
        &&& forall|q: int|
            0 <= q < self.pos ==> if self.outcomes@[q] {
                self.store@.contains(#[trigger] self.queued_hash(q))
            } else {
                self.store@.contains(failed_name(#[trigger] self.queued_hash(q)))
            }
        // runs not yet committed have no completed directory
        &&& forall|q: int|
            self.pos <= q < self.queue@.len() ==> !self.store@.contains(
                #[trigger] self.queued_hash(q),
            ) && (self.store@.contains(failed_name(self.queued_hash(q))) ==> self.retry_failed)
        // the current run's marker
        &&& !self.is_finished() && self.phase != Phase::Prepare ==> {
            &&& self.store@.contains(running_name(self.current_hash()))
            &&& !self.store@.contains(failed_name(self.current_hash()))
        }
    }

    /// The step that `next_step` hands out in this state.
    pub open spec fn is_next_step(&self, step: Step) -> bool {
        let h = self.current_hash();
        if self.is_finished() {
            step is Done
        } else {
            match self.phase {
                Phase::Prepare => if self.store@.contains(failed_name(h)) {
                    step matches Step::ClearFailed { dir } && dir@ == failed_name(h)
                } else {
                    step matches Step::CreateRunning { dir } && dir@ == running_name(h)
                },
                Phase::Execute => step matches Step::Execute { index, dir } && index
                    == self.queue@[self.pos as int] && dir@ == running_name(h),
                Phase::Commit { succeeded } => step matches Step::Commit { from, to } && from@
                    == running_name(h) && to@ == (if succeeded {
                    h
                } else {
                    failed_name(h)
                }),
            }
        }
    }

    proof fn lemma_queue_facts(&self)
        requires
            self.wf(),
        ensures
            forall|q: int|
                0 <= q < self.queue@.len() ==> {
                    &&& 0 <= #[trigger] self.queue@[q] < self.hashes@.len()
                    &&& first_occurrence(self.hash_seq(), self.queue@[q] as int)
                    &&& is_content_hash(self.queued_hash(q))
                },
            forall|a: int, b: int|
                0 <= a < self.queue@.len() && 0 <= b < self.queue@.len() && a != b
                    ==> #[trigger] self.queued_hash(a) != #[trigger] self.queued_hash(b),
            forall|k: int, q: int|
                0 <= k < self.hashes@.len() && first_occurrence(self.hash_seq(), k) && !needs_run(
                    self.initial@,
                    self.hash_seq()[k],
                    self.retry_failed,
                ) && 0 <= q < self.queue@.len() ==> #[trigger] self.hash_seq()[k]
                    != #[trigger] self.queued_hash(q),
    {
        let hs = self.hash_seq();
        let s = scheduled(hs, self.initial@, self.retry_failed);
        lemma_scheduled_members(hs, self.initial@, self.retry_failed);
        assert forall|q: int| 0 <= q < self.queue@.len() implies {
            &&& 0 <= #[trigger] self.queue@[q] < self.hashes@.len()
            &&& first_occurrence(self.hash_seq(), self.queue@[q] as int)
            &&& is_content_hash(self.queued_hash(q))
        } by {
            assert(index_views(self.queue@)[q] == self.queue@[q] as int);
            assert(s[q] == self.queue@[q] as int);
            assert(s.contains(s[q]));
        }
        assert forall|a: int, b: int|
            0 <= a < self.queue@.len() && 0 <= b < self.queue@.len() && a != b
                implies #[trigger] self.queued_hash(a) != #[trigger] self.queued_hash(b) by {
            assert(index_views(self.queue@)[a] == self.queue@[a] as int);
            assert(index_views(self.queue@)[b] == self.queue@[b] as int);
            assert(s[a] == self.queue@[a] as int);
            assert(s[b] == self.queue@[b] as int);
            assert(s.contains(s[a]));
            assert(s.contains(s[b]));
            if a < b {
                lemma_first_occurrences_differ(hs, s[a], s[b]);
            } else {
                lemma_first_occurrences_differ(hs, s[b], s[a]);
            }
        }
        assert forall|k: int, q: int|
            0 <= k < self.hashes@.len() && first_occurrence(self.hash_seq(), k) && !needs_run(
                self.initial@,
                self.hash_seq()[k],
                self.retry_failed,
            ) && 0 <= q < self.queue@.len() implies #[trigger] self.hash_seq()[k]
            != #[trigger] self.queued_hash(q) by {
            assert(index_views(self.queue@)[q] == self.queue@[q] as int);
            assert(s[q] == self.queue@[q] as int);
            assert(s.contains(s[q]));
            if s[q] < k {
                lemma_first_occurrences_differ(hs, s[q], k);
            } else if s[q] > k {
                lemma_first_occurrences_differ(hs, k, s[q]);
            }
        }
    }

    /// A scheduler over the configurations' serialized forms, against the
    /// entries found in the experiment root.
    pub fn new(configurations: &Vec<Vec<u8>>, store: StateStore, retry_failed: bool) -> (r: Scheduler)
        ensures
            r.wf(),
            r.hash_seq() == configurations@.map_values(|c: Vec<u8>| blake3_hex(c@)),
            r.initial@ == store@,
            r.store@ == store@,
            r.retry_failed == retry_failed,
            r.pos == 0,
            r.phase == Phase::Prepare,
            index_views(r.queue@) == scheduled(r.hash_seq(), store@, retry_failed),
    {
        let mut hashes: Vec<String> = Vec::new();
        let mut i: usize = 0;
        while i < configurations.len()
            invariant
                i <= configurations@.len(),
                string_views(hashes@) == configurations@.subrange(0, i as int).map_values(
                    |c: Vec<u8>| blake3_hex(c@),
                ),
                forall|k: int| 0 <= k < hashes@.len() ==> is_content_hash(#[trigger] hashes@[k]@),
            decreases configurations@.len() - i,
        {
            let h = content_hash(&configurations[i]);
            let ghost before = hashes@;
            hashes.push(h);
            assert(string_views(hashes@) =~= string_views(before).push(h@));
            assert(configurations@.subrange(0, i + 1) =~= configurations@.subrange(0, i as int).push(
                configurations@[i as int],
            ));
            assert(string_views(hashes@) =~= configurations@.subrange(0, i + 1).map_values(
                |c: Vec<u8>| blake3_hex(c@),
            ));
            i = i + 1;
        }
        assert(configurations@.subrange(0, configurations@.len() as int) =~= configurations@);
        let p = plan(&hashes, &store, retry_failed);
        let ghost dir = store@;
        let r = Scheduler {
            hashes,
            queue: p.to_run,
            pos: 0,
            phase: Phase::Prepare,
            store,
            retry_failed,
            executed: 0,
            failed: 0,
            skipped: p.skipped,
            duplicates: p.duplicates,
            outcomes: Ghost(Seq::empty()),
            initial: Ghost(dir),
        };
        proof {
            lemma_scheduled_members(r.hash_seq(), dir, retry_failed);
            assert forall|q: int| 0 <= q < r.queue@.len() implies !r.store@.contains(
                #[trigger] r.queued_hash(q),
            ) && (r.store@.contains(failed_name(r.queued_hash(q))) ==> r.retry_failed) by {
                let s = scheduled(r.hash_seq(), dir, retry_failed);
                assert(index_views(r.queue@) == s);
                assert(index_views(r.queue@)[q] == r.queue@[q] as int);
                assert(s[q] == r.queue@[q] as int);
                assert(s.contains(s[q]));
                assert(needs_run(dir, r.hash_seq()[s[q]], retry_failed));
            }
        }
        r
    }

    pub fn is_done(&self) -> (r: bool)
        requires
            self.wf(),
        ensures
            r == self.is_finished(),
    {
        self.pos == self.queue.len()
    }

    /// The step the caller must perform next.
    pub fn next_step(&self) -> (r: Step)
        requires
            self.wf(),
        ensures
            self.is_next_step(r),
    {
        if self.pos == self.queue.len() {
            return Step::Done;
        }
        let index = self.queue[self.pos];
        proof {
            self.lemma_queue_facts();
        }
        let hash = &self.hashes[index];
        match self.phase {
            Phase::Prepare => {
                let failed = failed_dir_name(hash);
                if self.store.contains(&failed) {
                    Step::ClearFailed { dir: failed }
                } else {
                    Step::CreateRunning { dir: running_dir_name(hash) }
                }
            },
            Phase::Execute => Step::Execute { index, dir: running_dir_name(hash) },
            Phase::Commit { succeeded } => {
                let to = if succeeded {
                    hash.clone()
                } else {
                    failed_dir_name(hash)
                };
                Step::Commit { from: running_dir_name(hash), to }
            },
        }
    }

    /// The failed attempt's directory has been removed.
    pub fn cleared(&mut self)
        requires
            old(self).wf(),
            !old(self).is_finished(),
            old(self).phase == Phase::Prepare,
            old(self).store@.contains(failed_name(old(self).current_hash())),
        ensures
            final(self).wf(),
            final(self).store@ == old(self).store@.remove(failed_name(old(self).current_hash())),
            final(self).pos == old(self).pos,
            final(self).phase == Phase::Prepare,
            final(self).hashes@ == old(self).hashes@,
            final(self).queue@ == old(self).queue@,
            final(self).retry_failed == old(self).retry_failed,
            final(self).initial@ == old(self).initial@,
    {
        proof {
            self.lemma_queue_facts();
        }
        let index = self.queue[self.pos];
        let name = failed_dir_name(&self.hashes[index]);
        self.store.remove(&name);
        proof {
            let h = old(self).current_hash();
            lemma_name_lengths(h);
            self.lemma_touching_current(old(self));
        }
    }

    /// The running marker has been created.
    pub fn created(&mut self)
        requires
            old(self).wf(),
            !old(self).is_finished(),
            old(self).phase == Phase::Prepare,
            !old(self).store@.contains(failed_name(old(self).current_hash())),
        ensures
            final(self).wf(),
            final(self).store@ == old(self).store@.insert(running_name(old(self).current_hash())),
            final(self).pos == old(self).pos,
            final(self).phase == Phase::Execute,
            final(self).hashes@ == old(self).hashes@,
            final(self).queue@ == old(self).queue@,
            final(self).retry_failed == old(self).retry_failed,
            final(self).initial@ == old(self).initial@,
    {
        proof {
            self.lemma_queue_facts();
        }
        let index = self.queue[self.pos];
        let name = running_dir_name(&self.hashes[index]);
        self.store.insert(name);
        self.phase = Phase::Execute;
        proof {
            let h = old(self).current_hash();
            lemma_name_lengths(h);
            self.lemma_touching_current(old(self));
        }
    }

    /// The experiment's steps are over: `succeeded` is whether pre-run, run
    /// and post-run all succeeded.
    pub fn executed(&mut self, succeeded: bool)
        requires
            old(self).wf(),
            !old(self).is_finished(),
            old(self).phase == Phase::Execute,
        ensures
            final(self).wf(),
            final(self).store@ == old(self).store@,
            final(self).pos == old(self).pos,
            final(self).phase == (Phase::Commit { succeeded }),
            final(self).hashes@ == old(self).hashes@,
            final(self).queue@ == old(self).queue@,
            final(self).retry_failed == old(self).retry_failed,
            final(self).initial@ == old(self).initial@,
    {
        self.phase = Phase::Commit { succeeded };
        proof {
            self.lemma_touching_current(old(self));
        }
    }

    /// The marker has been renamed to its terminal name.
    pub fn committed(&mut self)
        requires
            old(self).wf(),
            !old(self).is_finished(),
            old(self).phase is Commit,
        ensures
            final(self).wf(),
            ({
                let h = old(self).current_hash();
                let succeeded = old(self).phase->succeeded;
                &&& final(self).store@ == old(self).store@.remove(running_name(h)).insert(
                    if succeeded {
                        h
                    } else {
                        failed_name(h)
                    },
                )
                &&& final(self).executed == old(self).executed + 1
                &&& final(self).failed == old(self).failed + if succeeded {
                    0int
                } else {
                    1int
                }
            }),
            final(self).pos == old(self).pos + 1,
            final(self).phase == Phase::Prepare,
            final(self).hashes@ == old(self).hashes@,
            final(self).queue@ == old(self).queue@,
            final(self).retry_failed == old(self).retry_failed,
            final(self).initial@ == old(self).initial@,
            final(self).skipped == old(self).skipped,
            final(self).duplicates == old(self).duplicates,
    {
        proof {
            self.lemma_queue_facts();
        }
        let n = self.queue.len();
        let succeeded = match self.phase {
            Phase::Commit { succeeded } => succeeded,
            _ => true,
        };
        let index = self.queue[self.pos];
        let from = running_dir_name(&self.hashes[index]);
        let to = if succeeded {
            self.hashes[index].clone()
        } else {
            failed_dir_name(&self.hashes[index])
        };
        self.store.rename(&from, to);
        let ghost outcomes = self.outcomes@;
        self.outcomes = Ghost(outcomes.push(succeeded));
        assert(self.outcomes@.drop_last() =~= outcomes);
        self.executed = self.executed + 1;
        if !succeeded {
            proof {
                lemma_failures_bound(outcomes);
            }
            self.failed = self.failed + 1;
        }
        self.pos = self.pos + 1;
        self.phase = Phase::Prepare;
        proof {
            let h = old(self).current_hash();
            lemma_name_lengths(h);
            self.lemma_touching_current(old(self));
        }
    }

    /// A step that touches only the current configuration's names keeps
    /// what the invariant says of every other configuration.
    proof fn lemma_touching_current(&self, prev: &Scheduler)
        requires
            prev.wf(),
            !prev.is_finished(),
            self.hashes@ == prev.hashes@,
            self.queue@ == prev.queue@,
            self.retry_failed == prev.retry_failed,
            self.initial@ == prev.initial@,
            self.skipped == prev.skipped,
            self.duplicates == prev.duplicates,
            self.executed == self.pos,
            self.failed == failures(self.outcomes@),
            self.outcomes@.len() == self.pos,
            self.pos == prev.pos || self.pos == prev.pos + 1,
            self.pos == prev.pos ==> self.outcomes@ == prev.outcomes@,
            self.pos == prev.pos + 1 ==> self.outcomes@.drop_last() == prev.outcomes@,
            self.is_finished() ==> self.phase == Phase::Prepare,
            self.pos == prev.pos + 1 ==> self.phase == Phase::Prepare,
            forall|n: Seq<char>|
                n != prev.current_hash() && n != running_name(prev.current_hash()) && n
                    != failed_name(prev.current_hash()) ==> (self.store@.contains(n)
                    == prev.store@.contains(n)),
            // what the step does to the current configuration's names
            self.pos == prev.pos + 1 ==> if self.outcomes@.last() {
                self.store@.contains(prev.current_hash())
            } else {
                self.store@.contains(failed_name(prev.current_hash()))
            },
            self.pos == prev.pos ==> !self.store@.contains(prev.current_hash()),
            self.pos == prev.pos ==> (self.store@.contains(failed_name(prev.current_hash()))
                ==> self.retry_failed),
            self.pos == prev.pos && self.phase != Phase::Prepare ==> {
                &&& self.store@.contains(running_name(prev.current_hash()))
                &&& !self.store@.contains(failed_name(prev.current_hash()))
            },
            self.pos == prev.pos + 1 || !self.store@.contains(failed_name(prev.current_hash()))
                || prev.store@.contains(failed_name(prev.current_hash())),
        ensures
            self.wf(),
    {
        prev.lemma_queue_facts();
        let hs = self.hash_seq();
        let h = prev.current_hash();
        assert(self.hash_seq() == prev.hash_seq());
        assert(forall|q: int| #[trigger] self.queued_hash(q) == prev.queued_hash(q));
        assert forall|k: int|
            0 <= k < hs.len() && first_occurrence(hs, k) && !needs_run(
                self.initial@,
                hs[k],
                self.retry_failed,
            ) implies !needs_run(self.store@, #[trigger] hs[k], self.retry_failed) by {
            assert(hs[k] != prev.queued_hash(prev.pos as int));
            lemma_names_apart(h, hs[k]);
        }
        assert forall|q: int| 0 <= q < self.pos implies if self.outcomes@[q] {
            self.store@.contains(#[trigger] self.queued_hash(q))
        } else {
            self.store@.contains(failed_name(#[trigger] self.queued_hash(q)))
        } by {
            assert(self.queued_hash(q) == prev.queued_hash(q));
            if q < prev.pos {
                assert(self.outcomes@[q] == prev.outcomes@[q]);
                assert(prev.queued_hash(q) != prev.queued_hash(prev.pos as int));
                lemma_names_apart(h, self.queued_hash(q));
            } else {
                assert(self.outcomes@.last() == self.outcomes@[q]);
            }
        }
        assert forall|q: int| self.pos <= q < self.queue@.len() implies !self.store@.contains(
            #[trigger] self.queued_hash(q),
        ) && (self.store@.contains(failed_name(self.queued_hash(q))) ==> self.retry_failed) by {
            assert(self.queued_hash(q) == prev.queued_hash(q));
            if q != prev.pos {
                assert(prev.queued_hash(q) != prev.queued_hash(prev.pos as int));
                lemma_names_apart(h, self.queued_hash(q));
            }
        }
    }

    /// The counts so far; at the end of a pass, the pass's summary.
    pub fn summary(&self) -> (r: Summary)
        ensures
            r.executed == self.executed,
            r.failed == self.failed,
            r.skipped == self.skipped,
            r.duplicates == self.duplicates,
    {
        Summary {
            executed: self.executed,
            failed: self.failed,
            skipped: self.skipped,
            duplicates: self.duplicates,
        }
    }
}

proof fn lemma_no_failures(outcomes: Seq<bool>)
    requires
        failures(outcomes) == 0,
    ensures
        forall|q: int| 0 <= q < outcomes.len() ==> #[trigger] outcomes[q],
    decreases outcomes.len(),
{
    if outcomes.len() > 0 {
        lemma_no_failures(outcomes.drop_last());
        assert forall|q: int| 0 <= q < outcomes.len() implies #[trigger] outcomes[q] by {
            if q < outcomes.len() - 1 {
                assert(outcomes[q] == outcomes.drop_last()[q]);
            }
        }
    }
}

/// The first position that holds the same hash as position `k`.
proof fn lemma_first_index(hashes: Seq<Seq<char>>, k: int) -> (f: int)
    requires
        0 <= k < hashes.len(),
    ensures
        0 <= f <= k,
        hashes[f] == hashes[k],
        first_occurrence(hashes, f),
    decreases k,
{
    if first_occurrence(hashes, k) {
        k
    } else {
        let j = choose|j: int| 0 <= j < k && hashes[j] == hashes[k];
        lemma_first_index(hashes, j)
    }
}

/// A pass runs each distinct configuration that needs a run exactly once:
/// every hash that needs a run is queued, and no hash is queued twice.
pub proof fn lemma_each_distinct_configuration_once(
    hashes: Seq<Seq<char>>,
    dir: Set<Seq<char>>,
    retry_failed: bool,
)
    ensures
        forall|k: int|
            0 <= k < hashes.len() && needs_run(dir, #[trigger] hashes[k], retry_failed) ==> exists|
                q: int,
            |
                0 <= q < scheduled(hashes, dir, retry_failed).len() && hashes[scheduled(
                    hashes,
                    dir,
                    retry_failed,
                )[q]] == hashes[k],
        forall|a: int, b: int|
            0 <= a < b < scheduled(hashes, dir, retry_failed).len() ==> hashes[scheduled(
                hashes,
                dir,
                retry_failed,
            )[a]] != hashes[scheduled(hashes, dir, retry_failed)[b]],
{
    let s = scheduled(hashes, dir, retry_failed);
    lemma_scheduled_members(hashes, dir, retry_failed);
    assert forall|k: int| 0 <= k < hashes.len() && needs_run(dir, #[trigger] hashes[k], retry_failed)
        implies exists|q: int| 0 <= q < s.len() && hashes[s[q]] == hashes[k] by {
        let f = lemma_first_index(hashes, k);
        assert(s.contains(f));
        let q = choose|q: int| 0 <= q < s.len() && s[q] == f;
        assert(hashes[s[q]] == hashes[k]);
    }
    assert forall|a: int, b: int| 0 <= a < b < s.len() implies hashes[s[a]] != hashes[s[b]] by {
        assert(s.contains(s[b]));
        lemma_first_occurrences_differ(hashes, s[a], s[b]);
    }
}

/// After a pass in which nothing failed, running the scheduler again over
/// the same configurations and results directory runs nothing.
pub proof fn lemma_second_pass_runs_nothing(s: &Scheduler)
    requires
        s.wf(),
        s.is_finished(),
        s.failed == 0,
    ensures
        scheduled(s.hash_seq(), s.store@, s.retry_failed).len() == 0,
{
    let hs = s.hash_seq();
    let first = scheduled(hs, s.initial@, s.retry_failed);
    let second = scheduled(hs, s.store@, s.retry_failed);
    lemma_no_failures(s.outcomes@);
    lemma_scheduled_members(hs, s.initial@, s.retry_failed);
    lemma_scheduled_members(hs, s.store@, s.retry_failed);
    if second.len() > 0 {
        let k = second[0];
        assert(second.contains(k));
        if needs_run(s.initial@, hs[k], s.retry_failed) {
            assert(first.contains(k));
            let q = choose|q: int| 0 <= q < first.len() && first[q] == k;
            assert(index_views(s.queue@)[q] == s.queue@[q] as int);
            assert(s.queued_hash(q) == hs[k]);
            assert(s.outcomes@[q]);
        }
    }
}

/// A run that stops after its running marker was created and before the
/// commit rename leaves no terminal directory for its hash, and a later pass
/// over the entries it left schedules it again.
pub proof fn lemma_interrupted_run_is_rescheduled(s: &Scheduler)
    requires
        s.wf(),
        !s.is_finished(),
        s.phase != Phase::Prepare,
    ensures
        !s.store@.contains(s.current_hash()),
        !s.store@.contains(failed_name(s.current_hash())),
        state_in(s.store@, s.current_hash()) == RunState::Running,
        scheduled(s.hash_seq(), s.store@, s.retry_failed).contains(
            s.queue@[s.pos as int] as int,
        ),
{
    s.lemma_queue_facts();
    lemma_scheduled_members(s.hash_seq(), s.store@, s.retry_failed);
}

/// Two configurations with identical serialized content but distinct
/// values run once: the later is counted as a duplicate and never scheduled.
pub proof fn lemma_identical_content_runs_once(
    configurations: Seq<Vec<u8>>,
    dir: Set<Seq<char>>,
    retry_failed: bool,
    i: int,
    j: int,
)
    requires
        0 <= i < j < configurations.len(),
        configurations[i]@ == configurations[j]@,
    ensures
        ({
            let hs = configurations.map_values(|c: Vec<u8>| blake3_hex(c@));
            &&& hs[i] == hs[j]
            &&& !first_occurrence(hs, j)
            &&& !scheduled(hs, dir, retry_failed).contains(j)
            &&& duplicate_count(hs) >= 1
        }),
{
    let hs = configurations.map_values(|c: Vec<u8>| blake3_hex(c@));
    assert(hs[i] == hs[j]);
    lemma_scheduled_members(hs, dir, retry_failed);
    lemma_duplicate_counted(hs, j);
}

proof fn lemma_duplicate_counted(hashes: Seq<Seq<char>>, j: int)
    requires
        0 <= j < hashes.len(),
        !first_occurrence(hashes, j),
    ensures
        duplicate_count(hashes) >= 1,
    decreases hashes.len(),
{
    if j < hashes.len() - 1 {
        let front = hashes.drop_last();
        lemma_first_occurrence_prefix(hashes, hashes.len() - 1, j);
        assert(front =~= hashes.subrange(0, hashes.len() - 1));
        lemma_duplicate_counted(front, j);
    }
}

} // verus!
