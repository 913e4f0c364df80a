use vstd::prelude::*;

use crate::executor::{complete_post, lemma_last_waiter, lemma_waiter_not_admitted, last_waiter, type_of, start_post, submit_post, Admission, Completion, TaskExecutor};
use crate::task::{TaskError, TaskId, TaskPolicy};

verus! {

/// The registry entry of a live task: its cancellation trigger.
pub struct TaskInfo {
    pub id: TaskId,
    /// Raised once cancellation is requested; never lowered.
    pub cancelled: bool,
}

/// Whether some entry of `s` has identity `id`.
pub open spec fn listed(s: Seq<TaskInfo>, id: TaskId) -> bool {
    exists|i: int| 0 <= i < s.len() && #[trigger] s[i].id == id
}

/// Whether some entry of `s` with identity `id` has its trigger raised.
pub open spec fn raised(s: Seq<TaskInfo>, id: TaskId) -> bool {
    exists|i: int| 0 <= i < s.len() && #[trigger] s[i].id == id && s[i].cancelled
}

/// Removing the entry at `k` (or none, when `k` is the length) and then
/// perhaps appending a fresh entry for `w` leaves every other identity as
/// it was.
proof fn lemma_remove_then_push(s0: Seq<TaskInfo>, s1: Seq<TaskInfo>, s2: Seq<TaskInfo>, k: int, id: TaskId, pushed: bool, w: TaskId)
    requires
        0 <= k <= s0.len(),
        k < s0.len() ==> s0[k].id == id && s1 == s0.remove(k),
        k == s0.len() ==> s1 == s0,
        pushed ==> s2 == s1.push((TaskInfo { id: w, cancelled: false })),
        !pushed ==> s2 == s1,
    ensures
        forall|x: TaskId| x != id && !(pushed && x == w) ==> (#[trigger] listed(s2, x)) == listed(s0, x),
        forall|x: TaskId| x != id && !(pushed && x == w) ==> (#[trigger] raised(s2, x)) == raised(s0, x),
{
    assert forall|x: TaskId| x != id && !(pushed && x == w) implies (listed(s2, x) == listed(s0, x)
        && raised(s2, x) == raised(s0, x)) by {
        assert(forall|a: int| 0 <= a < s1.len() ==> #[trigger] s2[a] == s1[a]);
        assert(forall|a: int| 0 <= a < s1.len() ==> #[trigger] s1[a] == s0[if a < k { a } else { a + 1 }]);
        if listed(s0, x) {
            let a = choose|a: int| 0 <= a < s0.len() && #[trigger] s0[a].id == x;
            let a1 = if a < k { a } else { a - 1 };
            assert(s2[a1] == s0[a]);
        }
        if listed(s2, x) {
            let a = choose|a: int| 0 <= a < s2.len() && #[trigger] s2[a].id == x;
            assert(a < s1.len());
            assert(s0[if a < k { a } else { a + 1 }].id == x);
        }
        if raised(s0, x) {
            let a = choose|a: int| 0 <= a < s0.len() && #[trigger] s0[a].id == x && s0[a].cancelled;
            let a1 = if a < k { a } else { a - 1 };
            assert(s2[a1] == s0[a]);
        }
        if raised(s2, x) {
            let a = choose|a: int| 0 <= a < s2.len() && #[trigger] s2[a].id == x && s2[a].cancelled;
            assert(a < s1.len());
            assert(s0[if a < k { a } else { a + 1 }].id == x);
        }
    };
}

/// The process-wide ceiling a manager gives its executor.
pub const MANAGER_CONCURRENCY: usize = 5;

/// A registry of live tasks over an executor: it tracks each admitted task
/// until it finishes and lets callers request cancellation by identity.
pub struct TaskManager {
    executor: TaskExecutor,
    tasks: Vec<TaskInfo>,
}

impl TaskManager {
    /// The executor the manager drives.
    pub closed spec fn executor(&self) -> TaskExecutor {
        self.executor
    }

    /// The live entries, in order of registration.
    pub closed spec fn registry(&self) -> Seq<TaskInfo> {
        self.tasks@
    }

    /// Whether `id` has an entry.
    pub open spec fn registered(&self, id: TaskId) -> bool {
        listed(self.registry(), id)
    }

    /// Whether cancellation of `id` was requested while it was tracked.
    pub open spec fn cancel_requested(&self, id: TaskId) -> bool {
        raised(self.registry(), id)
    }

    /// The invariant that every operation keeps: entries are unique and
    /// each names a task the executor holds.
    pub closed spec fn wf(&self) -> bool {
        &&& self.executor.wf()
        &&& forall|i: int, j: int| 0 <= i < self.tasks@.len() && 0 <= j < self.tasks@.len() && i != j
            ==> #[trigger] self.tasks@[i].id != #[trigger] self.tasks@[j].id
        &&& forall|i: int| 0 <= i < self.tasks@.len() ==> self.executor.has_task(#[trigger] self.tasks@[i].id)
    }

    /// A manager with no task, over an executor whose process-wide ceiling
    /// is five running tasks.
    pub fn new() -> (r: Self)
        ensures
            r.wf(),
            r.registry().len() == 0,
            r.executor().tasks().len() == 0,
            r.executor().waiting().len() == 0,
            r.executor().global_limit() == Some(MANAGER_CONCURRENCY),
    {
        TaskManager { executor: TaskExecutor::new(Some(MANAGER_CONCURRENCY)), tasks: Vec::new() }
    }

    /// Position of the entry of `id`, if any.
    fn find(&self, id: TaskId) -> (r: Option<usize>)
        ensures
            r is Some <==> self.registered(id),
            r is Some ==> r->Some_0 < self.registry().len() && self.registry()[r->Some_0 as int].id == id,
    {
        let mut i: usize = 0;
        while i < self.tasks.len()
            invariant
                0 <= i <= self.tasks.len(),
                forall|j: int| 0 <= j < i ==> (#[trigger] self.tasks@[j]).id != id,
            decreases self.tasks.len() - i,
        {
            if self.tasks[i].id == id {
                assert(self.registry()[i as int].id == id);
                return Some(i);
            }
            i = i + 1;
        }
        None
    }

    /// Whether `id` has an entry.
    pub fn is_registered(&self, id: TaskId) -> (r: bool)
        requires
            self.wf(),
        ensures
            r == self.registered(id),
    {
        self.find(id).is_some()
    }

    /// Whether cancellation of the tracked task `id` was requested; false
    /// for an identity that is not tracked.
    pub fn is_cancelled(&self, id: TaskId) -> (r: bool)
        requires
            self.wf(),
        ensures
            r == self.cancel_requested(id),
    {
        match self.find(id) {
            Some(i) => {
                let r = self.tasks[i].cancelled;
                proof {
                    if self.cancel_requested(id) {
                        let j = choose|j: int| 0 <= j < self.registry().len() && #[trigger] self.registry()[j].id == id
                            && self.registry()[j].cancelled;
                        assert(j == i);
                    }
                }
                r
            },
            None => false,
        }
    }

    /// Raises the cancellation trigger of `id`. Fails with `InvalidState`
    /// when `id` is not tracked; otherwise the trigger stays raised while
    /// the entry lives.
    pub fn cancel(&mut self, id: TaskId) -> (r: Result<(), TaskError>)
        requires
            old(self).wf(),
        ensures
            final(self).wf(),
            final(self).executor() == old(self).executor(),
            r is Ok <==> old(self).registered(id),
            r is Err ==> r->Err_0 is InvalidState && final(self).registry() == old(self).registry(),
            r is Ok ==> final(self).cancel_requested(id),
            forall|x: TaskId| #[trigger] final(self).registered(x) == old(self).registered(x),
            forall|x: TaskId| x != id ==> #[trigger] final(self).cancel_requested(x) == old(self).cancel_requested(x),
    {
        match self.find(id) {
            None => Err(TaskError::InvalidState),
            Some(i) => {
                let ghost s = self.tasks@;
                self.tasks.set(i, TaskInfo { id, cancelled: true });
                proof {
                    assert(self.tasks@ == s.update(i as int, TaskInfo { id, cancelled: true }));
                    assert(self.registry()[i as int].id == id && self.registry()[i as int].cancelled);
                    assert forall|x: TaskId| #[trigger] self.registered(x) == old(self).registered(x) by {
                        if old(self).registered(x) {
                            let j = choose|j: int| 0 <= j < s.len() && #[trigger] s[j].id == x;
                            assert(self.tasks@[j].id == x);
                        }
                        if self.registered(x) {
                            let j = choose|j: int| 0 <= j < self.tasks@.len() && #[trigger] self.tasks@[j].id == x;
                            assert(s[j].id == x);
                        }
                    };
                    assert forall|x: TaskId| x != id implies #[trigger] self.cancel_requested(x) == old(self).cancel_requested(x) by {
                        if old(self).cancel_requested(x) {
                            let j = choose|j: int| 0 <= j < s.len() && #[trigger] s[j].id == x && s[j].cancelled;
                            assert(self.tasks@[j].id == x);
                        }
                        if self.cancel_requested(x) {
                            let j = choose|j: int| 0 <= j < self.tasks@.len() && #[trigger] self.tasks@[j].id == x
                                && self.tasks@[j].cancelled;
                            assert(s[j].id == x);
                        }
                    };
                }
                Ok(())
            },
        }
    }

    /// Submits a task to the executor and registers it once admitted.
    pub fn submit(&mut self, id: TaskId, policy: TaskPolicy) -> (r: Result<Admission, TaskError>)
        requires
            old(self).wf(),
        ensures
            final(self).wf(),
            submit_post(old(self).executor(), final(self).executor(), id, policy, r),
            r == Ok::<Admission, TaskError>(Admission::Admitted)
                ==> final(self).registry() == old(self).registry().push((TaskInfo { id, cancelled: false })),
            r != Ok::<Admission, TaskError>(Admission::Admitted) ==> final(self).registry() == old(self).registry(),
    {
        let ghost e0 = self.executor;
        let r = self.executor.submit(id, policy);
        let ghost s = self.tasks@;
        proof {
            assert forall|i: int| 0 <= i < s.len() implies self.executor.has_task(#[trigger] s[i].id) by {
                let j = choose|j: int| 0 <= j < e0.tasks().len() && #[trigger] e0.tasks()[j].id == s[i].id;
                assert(self.executor.tasks()[j].id == s[i].id);
            };
        }
        if let Ok(Admission::Admitted) = r {
            self.tasks.push(TaskInfo { id, cancelled: false });
            proof {
                let n = self.executor.tasks().len() - 1;
                assert(self.executor.tasks()[n].id == id);
                assert forall|i: int| 0 <= i < s.len() implies #[trigger] s[i].id != id by {};
                assert forall|i: int| 0 <= i < self.tasks@.len() implies self.executor.has_task(#[trigger] self.tasks@[i].id) by {
                    if i < s.len() {
                        assert(self.tasks@[i] == s[i]);
                    }
                };
            }
        }
        r
    }

    /// Moves the pending task `id` past the permit gates, as
    /// `TaskExecutor::try_start` does; the registry is unchanged.
    pub fn try_start(&mut self, id: TaskId) -> (r: Result<bool, TaskError>)
        requires
            old(self).wf(),
        ensures
            final(self).wf(),
            start_post(old(self).executor(), final(self).executor(), id, r),
            final(self).registry() == old(self).registry(),
    {
        let ghost e0 = self.executor;
        let r = self.executor.try_start(id);
        proof {
            let s = self.tasks@;
            assert forall|i: int| 0 <= i < s.len() implies self.executor.has_task(#[trigger] s[i].id) by {
                let j = choose|j: int| 0 <= j < e0.tasks().len() && #[trigger] e0.tasks()[j].id == s[i].id;
                assert(self.executor.tasks()[j].id == s[i].id);
            };
        }
        r
    }

    /// Records that the running task `id` finished: the executor releases
    /// what it held and wakes a waiter as `TaskExecutor::complete` does; the
    /// entry of `id` is removed, and a woken task that is admitted gets one.
    pub fn complete(&mut self, id: TaskId, succeeded: bool) -> (r: Result<Completion, TaskError>)
        requires
            old(self).wf(),
        ensures
            final(self).wf(),
            complete_post(old(self).executor(), final(self).executor(), id, succeeded, r),
            r is Err ==> final(self).registry() == old(self).registry(),
            r is Ok ==> !final(self).registered(id),
            r is Ok && r->Ok_0.woken is Some && r->Ok_0.woken->Some_0.1 is Ok ==> {
                let w = r->Ok_0.woken->Some_0.0;
                final(self).registered(w) && !final(self).cancel_requested(w)
            },
            r is Ok ==> forall|x: TaskId| x != id && !(r->Ok_0.woken is Some && r->Ok_0.woken->Some_0.0 == x)
                ==> (#[trigger] final(self).registered(x)) == old(self).registered(x),
            r is Ok ==> forall|x: TaskId| x != id && !(r->Ok_0.woken is Some && r->Ok_0.woken->Some_0.0 == x)
                ==> (#[trigger] final(self).cancel_requested(x)) == old(self).cancel_requested(x),
    {
        let ghost e0 = self.executor;
        let r = self.executor.complete(id, succeeded);
        match r {
            Err(e) => {
                proof {
                    let s = self.tasks@;
                    assert forall|i: int| 0 <= i < s.len() implies self.executor.has_task(#[trigger] s[i].id) by {
                        let j = choose|j: int| 0 <= j < e0.tasks().len() && #[trigger] e0.tasks()[j].id == s[i].id;
                        assert(self.executor.tasks()[j].id == s[i].id);
                    };
                }
                Err(e)
            },
            Ok(c) => {
                let ghost s0 = self.tasks@;
                let ghost k0 = e0.index_of(id);
                let ghost rest = e0.tasks().remove(k0);
                let found = self.find(id);
                if let Some(k) = found {
                    self.tasks.remove(k);
                }
                let ghost s1 = self.tasks@;
                let ghost k: int = if found is Some { found->Some_0 as int } else { s0.len() as int };
                assert(forall|a: int| 0 <= a < s1.len() ==> #[trigger] s1[a] == s0[if a < k { a } else { a + 1 }]);
                assert(found is None ==> s1.len() == s0.len() && forall|a: int| 0 <= a < s0.len() ==> #[trigger] s0[a].id != id);
                proof {
                    assert(e0.tasks()[k0].id == id);
                    assert forall|i: int| 0 <= i < s1.len() implies #[trigger] s1[i].id != id && s0.contains(s1[i]) by {
                        let i1 = if i < k { i } else { i + 1 };
                        assert(s1[i] == s0[i1]);
                    };
                    assert forall|i: int| 0 <= i < s1.len() implies exists|j: int| 0 <= j < rest.len() && #[trigger] rest[j].id == (#[trigger] s1[i]).id by {
                        let a = choose|a: int| 0 <= a < s0.len() && s0[a] == s1[i];
                        let j = choose|j: int| 0 <= j < e0.tasks().len() && #[trigger] e0.tasks()[j].id == s0[a].id;
                        assert(j != k0);
                        let j1 = if j < k0 { j } else { j - 1 };
                        assert(rest[j1].id == s1[i].id);
                    };
                }
                let ghost w = last_waiter(e0.waiting(), type_of(e0.tasks()[k0]));
                if let Some((wid, Ok(()))) = &c.woken {
                    proof {
                        lemma_last_waiter(e0.waiting(), type_of(e0.tasks()[k0]));
                        lemma_waiter_not_admitted(&e0, w);
                    }
                    self.tasks.push(TaskInfo { id: *wid, cancelled: false });
                }
                proof {
                    let s2 = self.tasks@;
                    let pushed = c.woken is Some && c.woken->Some_0.1 is Ok;
                    assert(pushed ==> s2 == s1.push(TaskInfo { id: c.woken->Some_0.0, cancelled: false }));
                    assert(!pushed ==> s2 == s1);
                    assert(forall|a: int| 0 <= a < s1.len() ==> #[trigger] s2[a] == s1[a]);
                    lemma_remove_then_push(s0, s1, s2, k, id, pushed, c.woken->Some_0.0);
                    if c.woken is Some && c.woken->Some_0.1 is Ok {
                        let wid = c.woken->Some_0.0;
                        assert(s2[s1.len() as int].id == wid);
                        assert forall|a: int| 0 <= a < s1.len() implies (#[trigger] s1[a]).id != wid by {
                            let b = choose|b: int| 0 <= b < s0.len() && s0[b] == s1[a];
                            if s0[b].id == wid {
                                assert(e0.has_task(s0[b].id));
                            }
                        };
                        if self.cancel_requested(wid) {
                            let a = choose|a: int| 0 <= a < s2.len() && #[trigger] s2[a].id == wid && s2[a].cancelled;
                            if a < s1.len() {
                                assert(s1[a] == s2[a]);
                            }
                        }
                    }
                    assert forall|i: int| 0 <= i < s2.len() implies self.executor.has_task(#[trigger] s2[i].id) by {
                        if i < s1.len() {
                            assert(s2[i] == s1[i]);
                            let j = choose|j: int| 0 <= j < rest.len() && #[trigger] rest[j].id == s1[i].id;
                            assert(self.executor.tasks()[j].id == s1[i].id);
                        } else {
                            let n = self.executor.tasks().len() - 1;
                            assert(self.executor.tasks()[n].id == s2[i].id);
                        }
                    };
                }
                Ok(c)
            },
        }
    }
}

impl Default for TaskManager {
    fn default() -> (r: Self)
        ensures
            r.wf(),
            r.registry().len() == 0,
            r.executor().tasks().len() == 0,
            r.executor().waiting().len() == 0,
            r.executor().global_limit() == Some(MANAGER_CONCURRENCY),
    {
        TaskManager::new()
    }
}

} // verus!
