//! Background job registry: the table of process ids of launched
//! background jobs.  The executor inserts an entry when a stage of a
//! background pipeline is launched; the `disown` builtin removes a single
//! entry or clears the table.  Removing an entry only drops the shell's
//! bookkeeping reference; the process itself is not affected.

use vstd::prelude::*;

use std::collections::HashSet;

verus! {

broadcast use vstd::std_specs::hash::group_hash_axioms;

/// The set of process ids of the background jobs the shell tracks.
pub struct Registry {
    jobs: HashSet<u32>,
}

/// What a disown request did, and the report owed for it.
#[derive(PartialEq, Eq, Structural, Clone, Copy, Debug)]
pub enum DisownOutcome {
    /// The pid was tracked; its entry was removed.
    Disowned(u32),
    /// The pid was not tracked; nothing changed.
    NoSuchProcess(u32),
    /// Every entry was removed.
    DisownedAll,
}

impl View for Registry {
    type V = Set<u32>;

    closed spec fn view(&self) -> Set<u32> {
        self.jobs@
    }
}

impl Registry {
    /// An empty registry: no background job is tracked.
    pub fn new() -> (r: Registry)
        ensures
            r@ == Set::<u32>::empty(),
    {
        Registry { jobs: HashSet::new() }
    }

    /// Whether `pid` is currently tracked.
    pub fn contains(&self, pid: u32) -> (b: bool)
        ensures
            b == self@.contains(pid),
    {
        self.jobs.contains(&pid)
    }

    /// How many background jobs are tracked.
    pub fn len(&self) -> (n: usize)
        ensures
            n == self@.len(),
    {
        self.jobs.len()
    }

    /// Whether no background job is tracked.
    pub fn is_empty(&self) -> (b: bool)
        ensures
            b == (self@ == Set::<u32>::empty()),
    {
        let b = self.jobs.is_empty();
        proof {
            if self@.is_empty() {
                assert(self@ =~= Set::<u32>::empty());
            }
        }
        b
    }

    /// Records a launched background job.  Exactly the entry for `pid` is
    /// added; the result says whether it was new.
    pub fn register(&mut self, pid: u32) -> (fresh: bool)
        ensures
            final(self)@ == old(self)@.insert(pid),
            fresh == !old(self)@.contains(pid),
    {
        self.jobs.insert(pid)
    }

    /// Disowns `Some(pid)`: removes that entry, reporting a miss when it is
    /// not tracked.  Disowns `None`: removes every entry.
    pub fn disown(&mut self, pid: Option<u32>) -> (o: DisownOutcome)
        ensures
            pid matches Some(p) ==> (if old(self)@.contains(p) {
                final(self)@ == old(self)@.remove(p) && o == DisownOutcome::Disowned(p)
            } else {
                final(self)@ == old(self)@ && o == DisownOutcome::NoSuchProcess(p)
            }),
            pid is None ==> final(self)@ == Set::<u32>::empty() && o == DisownOutcome::DisownedAll,
    {
        match pid {
            Some(p) => {
                let was_present = self.jobs.remove(&p);
                if was_present {
                    DisownOutcome::Disowned(p)
                } else {
                    proof {
                        assert(self@ =~= old(self)@);
                    }
                    DisownOutcome::NoSuchProcess(p)
                }
            }
            None => {
                self.jobs.clear();
                DisownOutcome::DisownedAll
            }
        }
    }
}

/// The registry contents after registering each pid of `pids` in order.
pub open spec fn register_all(s: Set<u32>, pids: Seq<u32>) -> Set<u32>
    decreases pids.len(),
{
    if pids.len() == 0 {
        s
    } else {
        register_all(s.insert(pids[0]), pids.drop_first())
    }
}

/// Law: backgrounding a pipeline inserts exactly one registry entry per
/// launched stage.  Registering a sequence of distinct, untracked pids —
/// one per stage that was launched and reached the background branch —
/// grows the registry by exactly the number of stages, and every one of
/// those pids is tracked afterwards.
pub proof fn lemma_register_stages_adds_one_each(s: Set<u32>, pids: Seq<u32>)
    requires
        s.finite(),
        pids.no_duplicates(),
        forall|j: int| 0 <= j < pids.len() ==> !s.contains(#[trigger] pids[j]),
    ensures
        register_all(s, pids).finite(),
        register_all(s, pids).len() == s.len() + pids.len(),
        forall|j: int| 0 <= j < pids.len() ==> register_all(s, pids).contains(#[trigger] pids[j]),
        forall|p: u32| s.contains(p) ==> register_all(s, pids).contains(p),
    decreases pids.len(),
{
    if pids.len() > 0 {
        let s1 = s.insert(pids[0]);
        let rest = pids.drop_first();
        assert forall|j: int| 0 <= j < rest.len() implies !s1.contains(#[trigger] rest[j]) by {
            assert(rest[j] == pids[j + 1]);
        }
        lemma_register_stages_adds_one_each(s1, rest);
        assert(s1.len() == s.len() + 1);
        assert forall|j: int| 0 <= j < pids.len() implies register_all(s, pids).contains(
            #[trigger] pids[j],
        ) by {
            if j == 0 {
                assert(s1.contains(pids[0]));
            } else {
                assert(rest[j - 1] == pids[j]);
            }
        }
        assert forall|p: u32| s.contains(p) implies register_all(s, pids).contains(p) by {
            assert(s1.contains(p));
        }
    }
}

} // verus!
