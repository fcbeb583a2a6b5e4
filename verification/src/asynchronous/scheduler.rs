//! The bookkeeping of a scheduler in which every task is a fiber.
//!
//! A fiber that waits for other fibers is pending until all of them have finished; fibers that
//! are ready run in last-in, first-out order. The scheduler tracks which fibers are running on a
//! thread right now. Fibers are identified by their ids; switching between them is done by the
//! caller.

use crate::callback::key_list;
use std::collections::HashMap;
use std::collections::HashSet;
use vstd::prelude::*;

verus! {

/// Holds for the fibers outside `fibers`.
pub open spec fn not_in(fibers: Set<u64>) -> spec_fn(u64) -> bool {
    |fiber: u64| !fibers.contains(fiber)
}

pub struct Scheduler {
    /// Fibers currently running on a thread.
    running: HashSet<u64>,
    /// Fibers that have no pending dependencies, most recently scheduled last.
    ready: Vec<u64>,
    /// The fibers each pending fiber still waits for.
    pending: HashMap<u64, HashSet<u64>>,
    /// Fibers that have finished their work.
    finished: HashSet<u64>,
}

impl Scheduler {
    pub closed spec fn running(&self) -> Set<u64> {
        self.running@
    }

    pub closed spec fn ready(&self) -> Seq<u64> {
        self.ready@
    }

    /// The fibers each pending fiber waits for.
    pub closed spec fn pending(&self) -> Map<u64, Set<u64>> {
        self.pending@.map_values(|deps: HashSet<u64>| deps@)
    }

    pub closed spec fn finished(&self) -> Set<u64> {
        self.finished@
    }

    /// Every set of dependencies is finite.
    pub closed spec fn wf(&self) -> bool {
        forall|p: u64| #[trigger] self.pending@.contains_key(p) ==> self.pending@[p]@.finite()
    }

    pub fn new() -> (scheduler: Scheduler)
        ensures
            scheduler.wf(),
            scheduler.running() == Set::<u64>::empty(),
            scheduler.ready() == Seq::<u64>::empty(),
            scheduler.pending() == Map::<u64, Set<u64>>::empty(),
            scheduler.finished() == Set::<u64>::empty(),
    {
        let scheduler = Scheduler {
            running: HashSet::new(),
            ready: Vec::new(),
            pending: HashMap::new(),
            finished: HashSet::new(),
        };
        assert(scheduler.pending() =~= Map::<u64, Set<u64>>::empty());
        scheduler
    }

    /// Schedules `fiber`, which must not be running, without any dependencies.
    pub fn schedule(&mut self, fiber: u64)
        requires
            old(self).wf(),
            !old(self).running().contains(fiber),
        ensures
            final(self).wf(),
            final(self).ready() == old(self).ready().push(fiber),
            final(self).running() == old(self).running(),
            final(self).pending() == old(self).pending(),
            final(self).finished() == old(self).finished(),
    {
        self.ready.push(fiber);
    }

    /// Makes `pending` wait for `dependency`, scheduling the dependency unless it is running.
    pub fn wait_for(&mut self, pending: u64, dependency: u64)
        requires
            old(self).wf(),
            !old(self).pending().contains_key(pending),
        ensures
            final(self).wf(),
            final(self).pending() == old(self).pending().insert(pending, set![dependency]),
            final(self).ready() == if old(self).running().contains(dependency) {
                old(self).ready()
            } else {
                old(self).ready().push(dependency)
            },
            final(self).running() == old(self).running(),
            final(self).finished() == old(self).finished(),
    {
        let mut dependencies = Vec::new();
        dependencies.push(dependency);
        self.wait_for_all(pending, &dependencies);
        assert(dependencies@ =~= seq![dependency]);
        assert(dependencies@.to_set() =~= set![dependency]) by {
            assert(dependencies@[0] == dependency);
        }
        assert(dependencies@.filter(not_in(old(self).running())) =~= if old(
            self,
        ).running().contains(dependency) {
            Seq::<u64>::empty()
        } else {
            seq![dependency]
        }) by {
            reveal_with_fuel(Seq::filter, 2);
            assert(dependencies@.drop_last() =~= Seq::<u64>::empty());
        }
    }

    /// Makes `pending` wait for all of `dependencies`, and schedules those of them that are not
    /// running, in order.
    pub fn wait_for_all(&mut self, pending: u64, dependencies: &Vec<u64>)
        requires
            old(self).wf(),
            !old(self).pending().contains_key(pending),
        ensures
            final(self).wf(),
            final(self).pending() == old(self).pending().insert(pending, dependencies@.to_set()),
            final(self).ready() == old(self).ready() + dependencies@.filter(
                not_in(old(self).running()),
            ),
            final(self).running() == old(self).running(),
            final(self).finished() == old(self).finished(),
    {
        let mut dependencies_set: HashSet<u64> = HashSet::new();
        let mut i: usize = 0;
        while i < dependencies.len()
            invariant
                i <= dependencies@.len(),
                dependencies_set@ == dependencies@.take(i as int).to_set(),
                dependencies_set@.finite(),
            decreases dependencies@.len() - i,
        {
            dependencies_set.insert(dependencies[i]);
            assert(dependencies@.take(i + 1) =~= dependencies@.take(i as int).push(dependencies@[i as int]));
            proof {
                dependencies@.take(i as int).lemma_push_to_set_commute(dependencies@[i as int]);
            }
            i = i + 1;
        }
        assert(dependencies@.take(dependencies@.len() as int) =~= dependencies@);
        self.pending.insert(pending, dependencies_set);
        assert(self.pending() =~= old(self).pending().insert(pending, dependencies@.to_set()));
        let ghost ready0 = self.ready@;
        let mut j: usize = 0;
        while j < dependencies.len()
            invariant
                self.wf(),
                j <= dependencies@.len(),
                self.pending() == old(self).pending().insert(pending, dependencies@.to_set()),
                self.running() == old(self).running(),
                self.finished() == old(self).finished(),
                ready0 == old(self).ready(),
                self.ready() == ready0 + dependencies@.take(j as int).filter(
                    not_in(old(self).running()),
                ),
            decreases dependencies@.len() - j,
        {
            let dependency = dependencies[j];
            let ghost pred = not_in(old(self).running());
            assert(dependencies@.take(j + 1).drop_last() =~= dependencies@.take(j as int));
            assert(dependencies@.take(j + 1).last() == dependency);
            assert(dependencies@.take(j + 1).filter(pred) == if pred(dependency) {
                dependencies@.take(j as int).filter(pred).push(dependency)
            } else {
                dependencies@.take(j as int).filter(pred)
            }) by {
                reveal(Seq::filter);
            }
            if !self.running.contains(&dependency) {
                self.schedule(dependency);
            }
            assert(self.ready() =~= ready0 + dependencies@.take(j + 1).filter(
                not_in(old(self).running()),
            ));
            j = j + 1;
        }
        assert(dependencies@.take(dependencies@.len() as int) =~= dependencies@);
    }

    /// Removes `fiber` from the dependencies of every pending fiber; those left waiting for
    /// nothing are released and scheduled, and `fiber` is marked finished. No released fiber may
    /// be running.
    pub fn finish(&mut self, fiber: u64)
        requires
            old(self).wf(),
            forall|p: u64|
                #[trigger] old(self).pending().contains_key(p) && old(self).pending()[p].remove(fiber)
                    == Set::<u64>::empty() ==> !old(self).running().contains(p),
        ensures
            final(self).wf(),
            final(self).running() == old(self).running(),
            final(self).finished() == old(self).finished().insert(fiber),
            forall|p: u64| #[trigger]
                final(self).pending().contains_key(p) <==> old(self).pending().contains_key(p)
                    && old(self).pending()[p].remove(fiber) != Set::<u64>::empty(),
            forall|p: u64| #[trigger]
                final(self).pending().contains_key(p) ==> final(self).pending()[p] == old(
                    self,
                ).pending()[p].remove(fiber),
            exists|released: Seq<u64>|
                {
                    &&& released.no_duplicates()
                    &&& forall|p: u64|
                        #[trigger] released.contains(p) <==> old(self).pending().contains_key(p)
                            && old(self).pending()[p].remove(fiber) == Set::<u64>::empty()
                    &&& final(self).ready() == old(self).ready() + released
                },
    {
        let fibers = key_list(&self.pending);
        let ghost deps0 = self.pending@;
        let mut released: Vec<u64> = Vec::new();
        let mut i: usize = 0;
        while i < fibers.len()
            invariant
                i <= fibers@.len(),
                fibers@.to_set() == deps0.dom(),
                fibers@.no_duplicates(),
                self.running@ == old(self).running@,
                self.ready@ == old(self).ready@,
                self.finished@ == old(self).finished@,
                self.pending@.dom() == deps0.dom(),
                deps0 == old(self).pending@,
                forall|p: u64| #[trigger] deps0.contains_key(p) ==> deps0[p]@.finite(),
                forall|k: int|
                    0 <= k < fibers@.len() ==> {
                        let p = #[trigger] fibers@[k];
                        self.pending@[p]@ == if k < i {
                            deps0[p]@.remove(fiber)
                        } else {
                            deps0[p]@
                        }
                    },
                released@.no_duplicates(),
                forall|p: u64|
                    #[trigger] released@.contains(p) <==> exists|k: int|
                        0 <= k < i && fibers@[k] == p && deps0[p]@.remove(fiber) == Set::<u64>::empty(),
            decreases fibers@.len() - i,
        {
            let p = fibers[i];
            let ghost released_before = released@;
            assert(fibers@.to_set().contains(p));
            assert(fibers@[i as int] == p);
            let mut deps = self.pending.remove(&p).unwrap();
            assert(deps@ == deps0[p]@);
            deps.remove(&fiber);
            let ghost emptied = deps0[p]@.remove(fiber) == Set::<u64>::empty();
            if deps.len() == 0 {
                proof {
                    deps0[p]@.remove(fiber).lemma_len0_is_empty();
                }
                released.push(p);
            } else {
                proof {
                    if emptied {
                        assert(deps0[p]@.remove(fiber).len() == 0);
                    }
                }
            }
            self.pending.insert(p, deps);
            proof {
                assert(self.pending@.dom() =~= deps0.dom());
                assert forall|k: int| 0 <= k < fibers@.len() implies {
                    let q = #[trigger] fibers@[k];
                    self.pending@[q]@ == if k < i + 1 {
                        deps0[q]@.remove(fiber)
                    } else {
                        deps0[q]@
                    }
                } by {
                    if k != i {
                        assert(fibers@[k] != p);
                    }
                }
                assert forall|q: u64| #[trigger] released@.contains(q) <==> exists|k: int|
                    0 <= k < i + 1 && fibers@[k] == q && deps0[q]@.remove(fiber) == Set::<u64>::empty() by {
                    if emptied {
                        assert(released@ == released_before.push(p));
                    } else {
                        assert(released@ == released_before);
                    }
                    if released@.contains(q) {
                        if released_before.contains(q) {
                            let k = choose|k: int| 0 <= k < i && fibers@[k] == q && deps0[q]@.remove(fiber) == Set::<u64>::empty();
                            assert(0 <= k < i + 1 && fibers@[k] == q);
                        } else {
                            let m = choose|m: int| 0 <= m < released@.len() && released@[m] == q;
                            if m < released_before.len() {
                                assert(released_before[m] == q);
                            }
                            assert(fibers@[i as int] == q);
                        }
                    }
                    if exists|k: int| 0 <= k < i + 1 && fibers@[k] == q && deps0[q]@.remove(fiber) == Set::<u64>::empty() {
                        let k = choose|k: int| 0 <= k < i + 1 && fibers@[k] == q && deps0[q]@.remove(fiber) == Set::<u64>::empty();
                        if k < i {
                            assert(released_before.contains(q));
                            let m = choose|m: int| 0 <= m < released_before.len() && released_before[m] == q;
                            assert(released@[m] == q);
                        } else {
                            assert(released@[released@.len() - 1] == q);
                        }
                    }
                }
                assert forall|a: int, b: int| 0 <= a < b < released@.len() implies released@[a] != released@[b] by {
                    if b == released@.len() - 1 && emptied {
                        if released@[a] == p {
                            assert(released_before.contains(p));
                            let k = choose|k: int| 0 <= k < i && fibers@[k] == p && deps0[p]@.remove(fiber) == Set::<u64>::empty();
                            assert(fibers@[k] == fibers@[i as int]);
                        }
                    }
                }
            }
            i = i + 1;
        }
        let ghost deps1 = self.pending@;
        proof {
            assert forall|q: u64| #[trigger] released@.contains(q) implies deps1.contains_key(q)
                && !self.running@.contains(q) by {
                let k = choose|k: int| 0 <= k < fibers@.len() && fibers@[k] == q && deps0[q]@.remove(fiber) == Set::<u64>::empty();
                assert(fibers@.to_set().contains(q));
                assert(old(self).pending().contains_key(q));
                assert(old(self).pending()[q] == deps0[q]@);
            }
        }
        let mut j: usize = 0;
        while j < released.len()
            invariant
                j <= released@.len(),
                released@.no_duplicates(),
                self.running@ == old(self).running@,
                self.finished@ == old(self).finished@,
                forall|q: u64| #[trigger] released@.contains(q) ==> deps1.contains_key(q) && !self.running@.contains(q),
                forall|q: u64| #[trigger] deps1.contains_key(q) ==> (self.pending@.contains_key(q)
                    <==> !released@.take(j as int).contains(q)),
                forall|q: u64| #[trigger] self.pending@.contains_key(q) ==> deps1.contains_key(q) && self.pending@[q] == deps1[q],
                self.ready@ == old(self).ready@ + released@.take(j as int),
            decreases released@.len() - j,
        {
            let p = released[j];
            assert(released@.contains(p));
            assert(!released@.take(j as int).contains(p)) by {
                if released@.take(j as int).contains(p) {
                    let k = choose|k: int| 0 <= k < j && #[trigger] released@.take(j as int)[k] == p;
                    assert(released@[k] == released@[j as int]);
                }
            }
            self.pending.remove(&p);
            self.ready.push(p);
            assert(self.ready@ =~= old(self).ready@ + released@.take(j + 1));
            proof {
                assert forall|q: u64| #[trigger] deps1.contains_key(q) implies (self.pending@.contains_key(q)
                    <==> !released@.take(j + 1).contains(q)) by {
                    if q != p {
                        if released@.take(j + 1).contains(q) {
                            let k = choose|k: int| 0 <= k < j + 1 && #[trigger] released@.take(j + 1)[k] == q;
                            assert(released@.take(j as int)[k] == q);
                        }
                        if released@.take(j as int).contains(q) {
                            let k = choose|k: int| 0 <= k < j && #[trigger] released@.take(j as int)[k] == q;
                            assert(released@.take(j + 1)[k] == q);
                        }
                    } else {
                        assert(released@.take(j + 1)[j as int] == p);
                    }
                }
            }
            j = j + 1;
        }
        self.finished.insert(fiber);
        proof {
            assert(released@.take(released@.len() as int) =~= released@);
            let rel = released@;
            assert forall|p: u64| #[trigger] rel.contains(p) <==> old(self).pending().contains_key(p)
                && old(self).pending()[p].remove(fiber) == Set::<u64>::empty() by {
                if old(self).pending().contains_key(p) && old(self).pending()[p].remove(fiber) == Set::<u64>::empty() {
                    assert(fibers@.to_set().contains(p));
                    let k = choose|k: int| 0 <= k < fibers@.len() && fibers@[k] == p;
                }
            }
            assert forall|p: u64| #[trigger] self.pending().contains_key(p) <==> old(self).pending().contains_key(p)
                && old(self).pending()[p].remove(fiber) != Set::<u64>::empty() by {
                if old(self).pending().contains_key(p) {
                    assert(fibers@.to_set().contains(p));
                    let k = choose|k: int| 0 <= k < fibers@.len() && fibers@[k] == p;
                }
            }
            assert forall|p: u64| #[trigger] self.pending().contains_key(p) implies self.pending()[p]
                == old(self).pending()[p].remove(fiber) by {
                assert(fibers@.to_set().contains(p));
                let k = choose|k: int| 0 <= k < fibers@.len() && fibers@[k] == p;
            }
            assert forall|p: u64| #[trigger] self.pending@.contains_key(p) implies self.pending@[p]@.finite() by {
                assert(fibers@.to_set().contains(p));
                let k = choose|k: int| 0 <= k < fibers@.len() && fibers@[k] == p;
            }
        }
    }

    /// Records that `resumed` is now running on a thread and that `prev`, the fiber that ran
    /// there before, is no longer running (nor kept as finished).
    pub fn handle_resumed(&mut self, resumed: u64, prev: Option<u64>)
        requires
            old(self).wf(),
            !old(self).running().contains(resumed),
            prev matches Some(p) ==> old(self).running().contains(p) || p == resumed,
        ensures
            final(self).wf(),
            final(self).ready() == old(self).ready(),
            final(self).pending() == old(self).pending(),
            match prev {
                Some(p) => {
                    &&& final(self).running() == old(self).running().insert(resumed).remove(p)
                    &&& final(self).finished() == old(self).finished().remove(p)
                },
                None => {
                    &&& final(self).running() == old(self).running().insert(resumed)
                    &&& final(self).finished() == old(self).finished()
                },
            },
    {
        self.running.insert(resumed);
        match prev {
            Some(p) => {
                self.running.remove(&p);
                self.finished.remove(&p);
            },
            None => {},
        }
    }

    /// The most recently scheduled ready fiber, removed from the ready list.
    pub fn next(&mut self) -> (next: Option<u64>)
        requires
            old(self).wf(),
        ensures
            final(self).wf(),
            final(self).running() == old(self).running(),
            final(self).pending() == old(self).pending(),
            final(self).finished() == old(self).finished(),
            if old(self).ready().len() > 0 {
                &&& next == Some(old(self).ready().last())
                &&& final(self).ready() == old(self).ready().drop_last()
            } else {
                &&& next is None
                &&& final(self).ready() == old(self).ready()
            },
    {
        self.ready.pop()
    }
}

} // verus!
