//! The bookkeeping of the work scheduler.
//!
//! Work is started asynchronously and runs on fibers. A fiber that awaits a unit of work still in
//! progress is suspended until that work finishes; a fiber with no pending dependencies and
//! unfinished work is ready to run; a fiber whose work is done is kept for reuse. The scheduler
//! decides which work or fiber runs next; switching fibers and waking threads is done by its
//! caller.

use crate::callback::key_list;
use std::collections::HashMap;
use std::collections::HashSet;
use std::collections::VecDeque;
use vstd::prelude::*;

verus! {

/// A shareable reference to a work unit.
#[derive(Debug, Clone, Copy, PartialEq, Eq, Hash, Structural)]
pub struct WorkId(pub usize);

/// A unit of work that has not been started on a fiber yet.
pub struct Work<W> {
    pub func: W,
    pub id: WorkId,
}

/// What a thread should run next: new work, or a fiber that is ready to continue.
pub enum NextWork<W, F> {
    Work(Work<W>),
    Fiber(F),
}

/// A fiber waiting on work: the fiber itself once it has been suspended, and the work units it
/// still waits for.
pub struct Pending<F> {
    pub fiber: Option<F>,
    pub dependencies: HashSet<usize>,
}

pub struct Scheduler<W, F> {
    /// Work units that are currently pending or in progress.
    current_work: HashSet<usize>,
    /// The work each fiber is running, keyed by fiber id.
    work_map: HashMap<u64, usize>,
    /// New units of work that haven't been started on a fiber yet.
    new_work: VecDeque<Work<W>>,
    /// Fibers that have no pending dependencies and still have work.
    ready_fibers: VecDeque<F>,
    /// Fibers waiting on work, keyed by fiber id.
    dependencies: HashMap<u64, Pending<F>>,
    /// Fibers whose work is done, ready to take on more work.
    finished: VecDeque<F>,
}

/// The fibers among `ids` (in that order) whose entries in `waiting` hold a suspended fiber.
pub open spec fn suspended_fibers<F>(waiting: Map<u64, Option<F>>, ids: Seq<u64>) -> Seq<F>
    decreases ids.len(),
{
    if ids.len() == 0 {
        Seq::empty()
    } else {
        let rest = suspended_fibers(waiting, ids.drop_last());
        match waiting[ids.last()] {
            Some(f) => rest.push(f),
            None => rest,
        }
    }
}

impl<W, F> Scheduler<W, F> {
    /// The ids of the work units pending or in progress.
    pub closed spec fn current_work(&self) -> Set<usize> {
        self.current_work@
    }

    /// The work each running fiber has, keyed by fiber id.
    pub closed spec fn work_map(&self) -> Map<u64, usize> {
        self.work_map@
    }

    /// New work, in the order it was scheduled.
    pub closed spec fn new_work(&self) -> Seq<Work<W>> {
        self.new_work@
    }

    pub closed spec fn ready(&self) -> Seq<F> {
        self.ready_fibers@
    }

    pub closed spec fn finished(&self) -> Seq<F> {
        self.finished@
    }

    /// The suspended fiber, if any, of each waiting fiber id.
    pub closed spec fn waiting(&self) -> Map<u64, Option<F>> {
        self.dependencies@.map_values(|p: Pending<F>| p.fiber)
    }

    /// The work units each waiting fiber id still waits for.
    pub closed spec fn waits_on(&self) -> Map<u64, Set<usize>> {
        self.dependencies@.map_values(|p: Pending<F>| p.dependencies@)
    }

    /// Every waiting fiber waits for at least one unit of work, all of it pending or in
    /// progress.
    pub open spec fn dependencies_in_progress(&self) -> bool {
        forall|p: u64| #[trigger]
            self.waits_on().contains_key(p) ==> self.waits_on()[p].subset_of(self.current_work())
                && self.waits_on()[p] != Set::<usize>::empty()
    }

    pub closed spec fn wf(&self) -> bool {
        &&& self.dependencies_in_progress()
        &&& forall|p: u64| #[trigger]
            self.dependencies@.contains_key(p) ==> self.dependencies@[p].dependencies@.finite()
    }

    /// Well-formedness carries over to a state with the same waiting fibers and at least the
    /// same current work.
    proof fn lemma_wf_frame(old: &Self, new: &Self)
        requires
            old.wf(),
            new.waits_on() == old.waits_on(),
            new.dependencies@.dom() == old.dependencies@.dom(),
            old.current_work().subset_of(new.current_work()),
        ensures
            new.wf(),
    {
        assert forall|p: u64| #[trigger] new.dependencies@.contains_key(p) implies new.dependencies@[p].dependencies@.finite() by {
            assert(old.waits_on()[p] == old.dependencies@[p].dependencies@);
            assert(new.waits_on()[p] == new.dependencies@[p].dependencies@);
        }
        assert forall|p: u64| #[trigger] new.waits_on().contains_key(p) implies new.waits_on()[p].subset_of(
            new.current_work(),
        ) && new.waits_on()[p] != Set::<usize>::empty() by {
            assert(old.waits_on().contains_key(p));
        }
    }

    pub fn new() -> (scheduler: Scheduler<W, F>)
        ensures
            scheduler.wf(),
            scheduler.current_work() == Set::<usize>::empty(),
            scheduler.work_map() == Map::<u64, usize>::empty(),
            scheduler.new_work() == Seq::<Work<W>>::empty(),
            scheduler.ready() == Seq::<F>::empty(),
            scheduler.finished() == Seq::<F>::empty(),
            scheduler.waits_on() == Map::<u64, Set<usize>>::empty(),
    {
        let scheduler = Scheduler {
            current_work: HashSet::new(),
            work_map: HashMap::new(),
            new_work: VecDeque::new(),
            ready_fibers: VecDeque::new(),
            dependencies: HashMap::new(),
            finished: VecDeque::new(),
        };
        assert(scheduler.waits_on() =~= Map::<u64, Set<usize>>::empty());
        scheduler
    }

    /// Adds a new unit of work to the pending queue. Its id must not be in use.
    pub fn schedule_work(&mut self, work: Work<W>)
        requires
            old(self).wf(),
            !old(self).current_work().contains(work.id.0),
        ensures
            final(self).wf(),
            final(self).current_work() == old(self).current_work().insert(work.id.0),
            final(self).new_work() == old(self).new_work().push(work),
            final(self).work_map() == old(self).work_map(),
            final(self).ready() == old(self).ready(),
            final(self).finished() == old(self).finished(),
            final(self).waiting() == old(self).waiting(),
            final(self).waits_on() == old(self).waits_on(),
    {
        self.current_work.insert(work.id.0);
        self.new_work.push_back(work);
        proof {
            Self::lemma_wf_frame(old(self), self);
        }
    }

    /// Makes `dependency` a dependency of the running fiber `pending`. Returns `true` if the
    /// work is still pending or in progress (so the fiber must suspend), `false` otherwise.
    pub fn add_dependency(&mut self, pending: u64, dependency: WorkId) -> (waiting: bool)
        requires
            old(self).wf(),
            old(self).current_work().contains(dependency.0) ==> !old(self).waits_on().contains_key(pending),
        ensures
            final(self).wf(),
            waiting == old(self).current_work().contains(dependency.0),
            waiting ==> final(self).waits_on() == old(self).waits_on().insert(pending, set![dependency.0])
                && final(self).waiting() == old(self).waiting().insert(pending, None),
            !waiting ==> final(self).waits_on() == old(self).waits_on() && final(self).waiting()
                == old(self).waiting(),
            final(self).current_work() == old(self).current_work(),
            final(self).new_work() == old(self).new_work(),
            final(self).work_map() == old(self).work_map(),
            final(self).ready() == old(self).ready(),
            final(self).finished() == old(self).finished(),
    {
        if self.current_work.contains(&dependency.0) {
            let mut dependencies = HashSet::new();
            dependencies.insert(dependency.0);
            self.dependencies.insert(pending, Pending { fiber: None, dependencies: dependencies });
            assert(self.waits_on() =~= old(self).waits_on().insert(pending, set![dependency.0]));
            assert(self.waiting() =~= old(self).waiting().insert(pending, None));
            assert(set![dependency.0].contains(dependency.0));
            true
        } else {
            proof {
                Self::lemma_wf_frame(old(self), self);
            }
            false
        }
    }

    /// Records that fiber `current` started running `new_work`.
    pub fn start_work(&mut self, current: u64, new_work: WorkId)
        requires
            old(self).wf(),
            old(self).current_work().contains(new_work.0),
        ensures
            final(self).wf(),
            final(self).work_map() == old(self).work_map().insert(current, new_work.0),
            final(self).current_work() == old(self).current_work(),
            final(self).new_work() == old(self).new_work(),
            final(self).ready() == old(self).ready(),
            final(self).finished() == old(self).finished(),
            final(self).waiting() == old(self).waiting(),
            final(self).waits_on() == old(self).waits_on(),
    {
        self.work_map.insert(current, new_work.0);
        proof {
            Self::lemma_wf_frame(old(self), self);
        }
    }

    /// Removes `finished_work`, which fiber `current` was running, from the scheduler: every
    /// waiting fiber stops waiting for it, and each fiber left waiting for nothing is released,
    /// going to the ready queue if it has already been suspended.
    pub fn finish_work(&mut self, current: u64, finished_work: WorkId)
        requires
            old(self).wf(),
            old(self).current_work().contains(finished_work.0),
            old(self).work_map().contains_key(current),
        ensures
            final(self).wf(),
            final(self).current_work() == old(self).current_work().remove(finished_work.0),
            final(self).work_map() == old(self).work_map().remove(current),
            final(self).new_work() == old(self).new_work(),
            final(self).finished() == old(self).finished(),
            forall|p: u64| #[trigger]
                final(self).waits_on().contains_key(p) <==> old(self).waits_on().contains_key(p)
                    && old(self).waits_on()[p].remove(finished_work.0) != Set::<usize>::empty(),
            forall|p: u64| #[trigger]
                final(self).waits_on().contains_key(p) ==> final(self).waits_on()[p]
                    == old(self).waits_on()[p].remove(finished_work.0) && final(self).waiting()[p]
                    == old(self).waiting()[p],
            exists|released: Seq<u64>|
                {
                    &&& released.no_duplicates()
                    &&& forall|p: u64|
                        #[trigger] released.contains(p) <==> old(self).waits_on().contains_key(p)
                            && old(self).waits_on()[p].remove(finished_work.0) == Set::<usize>::empty()
                    &&& final(self).ready() == old(self).ready() + suspended_fibers(
                        old(self).waiting(),
                        released,
                    )
                },
    {
        let fibers = key_list(&self.dependencies);
        let ghost deps0 = self.dependencies@;
        let mut ready: Vec<u64> = Vec::new();
        let mut i: usize = 0;
        while i < fibers.len()
            invariant
                i <= fibers@.len(),
                self.current_work@ == old(self).current_work@,
                self.work_map@ == old(self).work_map@,
                self.new_work@ == old(self).new_work@,
                self.finished@ == old(self).finished@,
                self.ready_fibers@ == old(self).ready_fibers@,
                fibers@.to_set() == deps0.dom(),
                fibers@.no_duplicates(),
                self.dependencies@.dom() == deps0.dom(),
                forall|p: u64| #[trigger] deps0.contains_key(p) ==> deps0[p].dependencies@.finite(),
                forall|k: int|
                    0 <= k < fibers@.len() ==> {
                        let p = #[trigger] fibers@[k];
                        &&& self.dependencies@[p].fiber == deps0[p].fiber
                        &&& self.dependencies@[p].dependencies@ == if k < i {
                            deps0[p].dependencies@.remove(finished_work.0)
                        } else {
                            deps0[p].dependencies@
                        }
                    },
                ready@.no_duplicates(),
                forall|p: u64|
                    #[trigger] ready@.contains(p) <==> exists|k: int|
                        0 <= k < i && fibers@[k] == p && deps0[p].dependencies@.remove(finished_work.0)
                            == Set::<usize>::empty(),
            decreases fibers@.len() - i,
        {
            let p = fibers[i];
            let ghost ready_before = ready@;
            assert(fibers@.to_set().contains(p));
            assert(fibers@[i as int] == p);
            let mut entry = self.dependencies.remove(&p).unwrap();
            assert(entry.dependencies@ == deps0[p].dependencies@);
            entry.dependencies.remove(&finished_work.0);
            let ghost released = deps0[p].dependencies@.remove(finished_work.0) == Set::<usize>::empty();
            if entry.dependencies.len() == 0 {
                proof {
                    deps0[p].dependencies@.remove(finished_work.0).lemma_len0_is_empty();
                }
                ready.push(p);
            } else {
                proof {
                    if deps0[p].dependencies@.remove(finished_work.0) == Set::<usize>::empty() {
                        assert(deps0[p].dependencies@.remove(finished_work.0).len() == 0);
                    }
                }
            }
            self.dependencies.insert(p, entry);
            proof {
                assert(self.dependencies@.dom() =~= deps0.dom());
                assert forall|k: int| 0 <= k < fibers@.len() implies {
                    let q = #[trigger] fibers@[k];
                    &&& self.dependencies@[q].fiber == deps0[q].fiber
                    &&& self.dependencies@[q].dependencies@ == if k < i + 1 {
                        deps0[q].dependencies@.remove(finished_work.0)
                    } else {
                        deps0[q].dependencies@
                    }
                } by {
                    if k != i {
                        assert(fibers@[k] != p);
                    }
                }
                assert forall|q: u64| #[trigger] ready@.contains(q) <==> exists|k: int|
                    0 <= k < i + 1 && fibers@[k] == q && deps0[q].dependencies@.remove(finished_work.0)
                        == Set::<usize>::empty() by {
                    if released {
                        assert(ready@ == ready_before.push(p));
                    } else {
                        assert(ready@ == ready_before);
                    }
                    if ready@.contains(q) {
                        if ready_before.contains(q) {
                            let k = choose|k: int| 0 <= k < i && fibers@[k] == q && deps0[q].dependencies@.remove(finished_work.0) == Set::<usize>::empty();
                            assert(0 <= k < i + 1 && fibers@[k] == q);
                        } else {
                            let m = choose|m: int| 0 <= m < ready@.len() && ready@[m] == q;
                            if m < ready_before.len() {
                                assert(ready_before[m] == q);
                            }
                            assert(q == p && released);
                            assert(fibers@[i as int] == q);
                        }
                    }
                    if exists|k: int| 0 <= k < i + 1 && fibers@[k] == q && deps0[q].dependencies@.remove(finished_work.0) == Set::<usize>::empty() {
                        let k = choose|k: int| 0 <= k < i + 1 && fibers@[k] == q && deps0[q].dependencies@.remove(finished_work.0) == Set::<usize>::empty();
                        if k < i {
                            assert(ready_before.contains(q));
                            let m = choose|m: int| 0 <= m < ready_before.len() && ready_before[m] == q;
                            assert(ready@[m] == q);
                        } else {
                            assert(q == p && released);
                            assert(ready@[ready@.len() - 1] == q);
                        }
                    }
                }
                assert forall|a: int, b: int| 0 <= a < b < ready@.len() implies ready@[a] != ready@[b] by {
                    if b == ready@.len() - 1 && deps0[p].dependencies@.remove(finished_work.0) == Set::<usize>::empty() {
                        if ready@[a] == p {
                            assert(ready_before.contains(p));
                            let k = choose|k: int| 0 <= k < i && fibers@[k] == p && deps0[p].dependencies@.remove(finished_work.0) == Set::<usize>::empty();
                            assert(fibers@[k] == fibers@[i as int]);
                        }
                    }
                }
            }
            i = i + 1;
        }
        let ghost deps1 = self.dependencies@;
        let ghost ready0 = self.ready_fibers@;
        let mut j: usize = 0;
        while j < ready.len()
            invariant
                j <= ready@.len(),
                self.current_work@ == old(self).current_work@,
                self.work_map@ == old(self).work_map@,
                self.new_work@ == old(self).new_work@,
                self.finished@ == old(self).finished@,
                ready@.no_duplicates(),
                forall|q: u64| #[trigger] ready@.contains(q) ==> deps1.contains_key(q),
                forall|q: u64| #[trigger] deps1.contains_key(q) ==> (self.dependencies@.contains_key(q)
                    <==> !ready@.take(j as int).contains(q)),
                forall|q: u64| #[trigger] self.dependencies@.contains_key(q) ==> deps1.contains_key(q) && self.dependencies@[q] == deps1[q],
                self.ready_fibers@ == ready0 + suspended_fibers(
                    deps1.map_values(|e: Pending<F>| e.fiber),
                    ready@.take(j as int),
                ),
            decreases ready@.len() - j,
        {
            let p = ready[j];
            assert(ready@.contains(p));
            assert(!ready@.take(j as int).contains(p)) by {
                if ready@.take(j as int).contains(p) {
                    let k = choose|k: int| 0 <= k < j && #[trigger] ready@.take(j as int)[k] == p;
                    assert(ready@[k] == ready@[j as int]);
                }
            }
            let entry = self.dependencies.remove(&p).unwrap();
            assert(ready@.take(j + 1).drop_last() =~= ready@.take(j as int));
            match entry.fiber {
                Some(ready_fiber) => {
                    self.ready_fibers.push_back(ready_fiber);
                },
                None => {},
            }
            proof {
                assert forall|q: u64| #[trigger] deps1.contains_key(q) implies (self.dependencies@.contains_key(q)
                    <==> !ready@.take(j + 1).contains(q)) by {
                    if q != p {
                        if ready@.take(j + 1).contains(q) {
                            let k = choose|k: int| 0 <= k < j + 1 && #[trigger] ready@.take(j + 1)[k] == q;
                            assert(ready@.take(j as int)[k] == q);
                        }
                        if ready@.take(j as int).contains(q) {
                            let k = choose|k: int| 0 <= k < j && #[trigger] ready@.take(j as int)[k] == q;
                            assert(ready@.take(j + 1)[k] == q);
                        }
                    } else {
                        assert(ready@.take(j + 1)[j as int] == p);
                    }
                }
            }
            j = j + 1;
        }
        self.current_work.remove(&finished_work.0);
        self.work_map.remove(&current);
        proof {
            assert(ready@.take(ready@.len() as int) =~= ready@);
            let released = ready@;
            assert forall|p: u64| #[trigger] released.contains(p) <==> old(self).waits_on().contains_key(p)
                && old(self).waits_on()[p].remove(finished_work.0) == Set::<usize>::empty() by {
                if old(self).waits_on().contains_key(p) && old(self).waits_on()[p].remove(finished_work.0) == Set::<usize>::empty() {
                    assert(fibers@.to_set().contains(p));
                    let k = choose|k: int| 0 <= k < fibers@.len() && fibers@[k] == p;
                }
            }
            assert(deps1.map_values(|e: Pending<F>| e.fiber) =~= old(self).waiting()) by {
                assert forall|q: u64| #[trigger] deps1.contains_key(q) implies deps1[q].fiber == deps0[q].fiber by {
                    assert(fibers@.to_set().contains(q));
                    let k = choose|k: int| 0 <= k < fibers@.len() && fibers@[k] == q;
                }
            }
            assert forall|p: u64| #[trigger] self.waits_on().contains_key(p) <==> old(self).waits_on().contains_key(p)
                && old(self).waits_on()[p].remove(finished_work.0) != Set::<usize>::empty() by {
                if old(self).waits_on().contains_key(p) {
                    assert(fibers@.to_set().contains(p));
                    let k = choose|k: int| 0 <= k < fibers@.len() && fibers@[k] == p;
                }
            }
            assert forall|p: u64| #[trigger] self.waits_on().contains_key(p) implies self.waits_on()[p]
                == old(self).waits_on()[p].remove(finished_work.0) && self.waiting()[p] == old(self).waiting()[p] by {
                assert(fibers@.to_set().contains(p));
                let k = choose|k: int| 0 <= k < fibers@.len() && fibers@[k] == p;
            }
            assert forall|p: u64| #[trigger] self.waits_on().contains_key(p) implies self.waits_on()[p].subset_of(self.current_work())
                && self.waits_on()[p] != Set::<usize>::empty() by {
                assert(fibers@.to_set().contains(p));
                let k = choose|k: int| 0 <= k < fibers@.len() && fibers@[k] == p;
                assert(old(self).waits_on().contains_key(p));
                assert(old(self).waits_on()[p].subset_of(old(self).current_work()));
                assert(self.waits_on()[p] == old(self).waits_on()[p].remove(finished_work.0));
            }
            assert forall|p: u64| #[trigger] self.dependencies@.contains_key(p) implies self.dependencies@[p].dependencies@.finite() by {
                assert(fibers@.to_set().contains(p));
                let k = choose|k: int| 0 <= k < fibers@.len() && fibers@[k] == p;
            }
        }
    }

    /// Files a fiber that has just been suspended: a waiting fiber keeps waiting, a fiber whose
    /// work is unfinished becomes ready, and any other fiber is finished.
    pub fn handle_suspended(&mut self, suspended_id: u64, suspended: F)
        requires
            old(self).wf(),
            old(self).waiting().contains_key(suspended_id) ==> old(self).waiting()[suspended_id] is None,
        ensures
            final(self).wf(),
            final(self).current_work() == old(self).current_work(),
            final(self).work_map() == old(self).work_map(),
            final(self).new_work() == old(self).new_work(),
            final(self).waits_on() == old(self).waits_on(),
            if old(self).waiting().contains_key(suspended_id) {
                &&& final(self).waiting() == old(self).waiting().insert(suspended_id, Some(suspended))
                &&& final(self).ready() == old(self).ready()
                &&& final(self).finished() == old(self).finished()
            } else if old(self).work_map().contains_key(suspended_id) {
                &&& final(self).waiting() == old(self).waiting()
                &&& final(self).ready() == old(self).ready().push(suspended)
                &&& final(self).finished() == old(self).finished()
            } else {
                &&& final(self).waiting() == old(self).waiting()
                &&& final(self).ready() == old(self).ready()
                &&& final(self).finished() == old(self).finished().push(suspended)
            },
    {
        match self.dependencies.remove(&suspended_id) {
            Some(entry) => {
                self.dependencies.insert(
                    suspended_id,
                    Pending { fiber: Some(suspended), dependencies: entry.dependencies },
                );
                assert(self.waiting() =~= old(self).waiting().insert(suspended_id, Some(suspended)));
                assert(self.waits_on() =~= old(self).waits_on());
                assert(self.dependencies@.dom() =~= old(self).dependencies@.dom());
            },
            None => {
                assert(self.dependencies@ =~= old(self).dependencies@);
                if self.work_map.contains_key(&suspended_id) {
                    self.ready_fibers.push_back(suspended);
                } else {
                    self.finished.push_back(suspended);
                }
            },
        }
        proof {
            Self::lemma_wf_frame(old(self), self);
        }
    }

    /// The next fiber to switch to: a ready fiber, else a finished one. `None` means a new
    /// fiber has to be created.
    pub fn next_fiber(&mut self) -> (fiber: Option<F>)
        requires
            old(self).wf(),
        ensures
            final(self).wf(),
            final(self).current_work() == old(self).current_work(),
            final(self).work_map() == old(self).work_map(),
            final(self).new_work() == old(self).new_work(),
            final(self).waiting() == old(self).waiting(),
            final(self).waits_on() == old(self).waits_on(),
            if old(self).ready().len() > 0 {
                &&& fiber == Some(old(self).ready()[0])
                &&& final(self).ready() == old(self).ready().drop_first()
                &&& final(self).finished() == old(self).finished()
            } else if old(self).finished().len() > 0 {
                &&& fiber == Some(old(self).finished()[0])
                &&& final(self).ready() == old(self).ready()
                &&& final(self).finished() == old(self).finished().drop_first()
            } else {
                &&& fiber is None
                &&& final(self).ready() == old(self).ready()
                &&& final(self).finished() == old(self).finished()
            },
    {
        let fiber = match self.ready_fibers.pop_front() {
            Some(fiber) => Some(fiber),
            None => self.finished.pop_front(),
        };
        proof {
            assert(self.waits_on() =~= old(self).waits_on());
            Self::lemma_wf_frame(old(self), self);
        }
        fiber
    }

    /// The next thing a thread should run: new work first, else a ready fiber.
    pub fn next(&mut self) -> (next: Option<NextWork<W, F>>)
        requires
            old(self).wf(),
        ensures
            final(self).wf(),
            final(self).current_work() == old(self).current_work(),
            final(self).work_map() == old(self).work_map(),
            final(self).finished() == old(self).finished(),
            final(self).waiting() == old(self).waiting(),
            final(self).waits_on() == old(self).waits_on(),
            if old(self).new_work().len() > 0 {
                &&& next matches Some(NextWork::Work(w)) && w == old(self).new_work()[0]
                &&& final(self).new_work() == old(self).new_work().drop_first()
                &&& final(self).ready() == old(self).ready()
            } else if old(self).ready().len() > 0 {
                &&& next matches Some(NextWork::Fiber(f)) && f == old(self).ready()[0]
                &&& final(self).new_work() == old(self).new_work()
                &&& final(self).ready() == old(self).ready().drop_first()
            } else {
                &&& next is None
                &&& final(self).new_work() == old(self).new_work()
                &&& final(self).ready() == old(self).ready()
            },
    {
        let next = match self.new_work.pop_front() {
            Some(work) => Some(NextWork::Work(work)),
            None => match self.ready_fibers.pop_front() {
                Some(fiber) => Some(NextWork::Fiber(fiber)),
                None => None,
            },
        };
        proof {
            assert(self.waits_on() =~= old(self).waits_on());
            Self::lemma_wf_frame(old(self), self);
        }
        next
    }
}

} // verus!
