//! The run state of each configuration, kept purely in the names of the
//! directories under the experiment root: `<hash>.running` while it runs,
//! `<hash>` once completed, `<hash>.failed` once failed.
use vstd::prelude::*;

use crate::hashing::is_content_hash;

verus! {

/// Where a configuration stands, as read from the directory names.
#[derive(Clone, Copy, Debug, PartialEq, Eq, Structural)]
pub enum RunState {
    Pending,
    Running,
    Completed,
    Failed,
}

pub open spec fn running_name(hash: Seq<char>) -> Seq<char> {
    hash + ".running"@
}

pub open spec fn failed_name(hash: Seq<char>) -> Seq<char> {
    hash + ".failed"@
}

/// The state of `hash` in a directory holding the entries `dir`. A completed
/// directory outranks a failed one, which outranks a running marker.
pub open spec fn state_in(dir: Set<Seq<char>>, hash: Seq<char>) -> RunState {
    if dir.contains(hash) {
        RunState::Completed
    } else if dir.contains(failed_name(hash)) {
        RunState::Failed
    } else if dir.contains(running_name(hash)) {
        RunState::Running
    } else {
        RunState::Pending
    }
}

/// The name lengths that keep the three forms of one hash, and the forms of
/// two hashes, apart.
pub proof fn lemma_name_lengths(hash: Seq<char>)
    requires
        is_content_hash(hash),
    ensures
        hash.len() == 64,
        running_name(hash).len() == 72,
        failed_name(hash).len() == 71,
{
    reveal_strlit(".running");
    reveal_strlit(".failed");
}

/// Two hashes whose running (or failed) names agree are the same hash.
pub proof fn lemma_names_injective(a: Seq<char>, b: Seq<char>)
    requires
        is_content_hash(a),
        is_content_hash(b),
    ensures
        running_name(a) == running_name(b) ==> a == b,
        failed_name(a) == failed_name(b) ==> a == b,
{
    lemma_name_lengths(a);
    lemma_name_lengths(b);
    if running_name(a) == running_name(b) {
        assert(a =~= running_name(a).subrange(0, 64));
        assert(b =~= running_name(b).subrange(0, 64));
    }
    if failed_name(a) == failed_name(b) {
        assert(a =~= failed_name(a).subrange(0, 64));
        assert(b =~= failed_name(b).subrange(0, 64));
    }
}

/// The names of two different hashes never meet.
pub proof fn lemma_names_apart(h: Seq<char>, g: Seq<char>)
    requires
        is_content_hash(h),
        is_content_hash(g),
        h != g,
    ensures
        g != running_name(h),
        g != failed_name(h),
        failed_name(g) != h,
        failed_name(g) != running_name(h),
        failed_name(g) != failed_name(h),
        running_name(g) != h,
        running_name(g) != running_name(h),
        running_name(g) != failed_name(h),
{
    lemma_name_lengths(h);
    lemma_name_lengths(g);
    lemma_names_injective(h, g);
}

/// The directory name of a configuration that is being executed.
pub fn running_dir_name(hash: &String) -> (r: String)
    ensures
        r@ == running_name(hash@),
{
    hash.clone().concat(".running")
}

/// The directory name of a configuration whose execution failed.
pub fn failed_dir_name(hash: &String) -> (r: String)
    ensures
        r@ == failed_name(hash@),
{
    hash.clone().concat(".failed")
}

/// Some element of `v` is a string with the characters `n`.
pub open spec fn has_name(v: Seq<String>, n: Seq<char>) -> bool {
    exists|j: int| 0 <= j < v.len() && v[j]@ == n
}

pub proof fn lemma_has_name_push(v: Seq<String>, e: String, n: Seq<char>)
    ensures
        has_name(v.push(e), n) <==> (has_name(v, n) || e@ == n),
{
    if has_name(v.push(e), n) {
        let j = choose|j: int| 0 <= j < v.push(e).len() && v.push(e)[j]@ == n;
        if j < v.len() {
            assert(v[j] == v.push(e)[j]);
        }
    }
    if has_name(v, n) {
        let j = choose|j: int| 0 <= j < v.len() && v[j]@ == n;
        assert(v.push(e)[j] == v[j]);
    }
    if e@ == n {
        assert(v.push(e)[v.len() as int] == e);
    }
}

/// The entries of the experiment root, by name: the store that the scheduler
/// reads and updates, mirrored on disk by its caller.
pub struct StateStore {
    pub entries: Vec<String>,
}

impl View for StateStore {
    type V = Set<Seq<char>>;

    open spec fn view(&self) -> Set<Seq<char>> {
        Set::new(|n: Seq<char>| has_name(self.entries@, n))
    }
}

impl StateStore {
    /// A store holding the names that were found in the experiment root.
    pub fn new(entries: Vec<String>) -> (r: StateStore)
        ensures
            r.entries@ == entries@,
    {
        StateStore { entries }
    }

    pub fn contains(&self, name: &String) -> (r: bool)
        ensures
            r == self@.contains(name@),
    {
        let mut i: usize = 0;
        while i < self.entries.len()
            invariant
                i <= self.entries@.len(),
                forall|j: int| 0 <= j < i ==> #[trigger] self.entries@[j]@ != name@,
            decreases self.entries@.len() - i,
        {
            if self.entries[i] == *name {
                assert(has_name(self.entries@, name@)) by {
                    assert(self.entries@[i as int]@ == name@);
                }
                return true;
            }
            i = i + 1;
        }
        false
    }

    /// The state of `hash` as the entries show it.
    pub fn state(&self, hash: &String) -> (r: RunState)
        ensures
            r == state_in(self@, hash@),
    {
        if self.contains(hash) {
            RunState::Completed
        } else if self.contains(&failed_dir_name(hash)) {
            RunState::Failed
        } else if self.contains(&running_dir_name(hash)) {
            RunState::Running
        } else {
            RunState::Pending
        }
    }

    /// Records that a directory of this name now exists.
    pub fn insert(&mut self, name: String)
        ensures
            final(self)@ == old(self)@.insert(name@),
    {
        if !self.contains(&name) {
            let ghost before = self.entries@;
            let ghost added = name;
            self.entries.push(name);
            assert(final(self)@ =~= old(self)@.insert(added@)) by {
                assert forall|n: Seq<char>| final(self)@.contains(n) <==> old(self)@.insert(
                    added@,
                ).contains(n) by {
                    lemma_has_name_push(before, added, n);
                }
            }
        } else {
            assert(old(self)@.insert(name@) =~= old(self)@);
        }
    }

    /// Records that the directory of this name is gone.
    pub fn remove(&mut self, name: &String)
        ensures
            final(self)@ == old(self)@.remove(name@),
    {
        let mut kept: Vec<String> = Vec::new();
        let mut i: usize = 0;
        while i < self.entries.len()
            invariant
                i <= self.entries@.len(),
                forall|n: Seq<char>|
                    #[trigger] has_name(kept@, n) <==> (n != name@ && has_name(
                        self.entries@.subrange(0, i as int),
                        n,
                    )),
            decreases self.entries@.len() - i,
        {
            let e = self.entries[i].clone();
            let ghost before = kept@;
            let ghost upto = self.entries@.subrange(0, i as int);
            let ghost next = self.entries@.subrange(0, i + 1);
            assert(next =~= upto.push(self.entries@[i as int]));
            if e != *name {
                kept.push(e);
                assert(kept@ =~= before.push(self.entries@[i as int]));
            }
            assert forall|n: Seq<char>|
                #[trigger] has_name(kept@, n) <==> (n != name@ && has_name(next, n)) by {
                lemma_has_name_push(upto, self.entries@[i as int], n);
                if e != *name {
                    lemma_has_name_push(before, self.entries@[i as int], n);
                }
            }
            i = i + 1;
        }
        self.entries = kept;
        assert(old(self).entries@.subrange(0, old(self).entries@.len() as int) =~= old(
            self,
        ).entries@);
        assert(final(self)@ =~= old(self)@.remove(name@)) by {
            assert forall|n: Seq<char>| final(self)@.contains(n) <==> old(self)@.remove(
                name@,
            ).contains(n) by {
                assert(final(self)@.contains(n) == has_name(final(self).entries@, n));
                assert(old(self)@.contains(n) == has_name(old(self).entries@, n));
            }
        }
    }

    /// Records the rename of the directory `from` to `to`.
    pub fn rename(&mut self, from: &String, to: String)
        ensures
            final(self)@ == old(self)@.remove(from@).insert(to@),
    {
        self.remove(from);
        self.insert(to);
    }
}

} // verus!
