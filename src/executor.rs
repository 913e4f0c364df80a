use vstd::prelude::*;

use crate::lock::{names, LockManager};
use crate::task::{conflict_of, TaskError, TaskId, TaskPolicy, TaskState};
use vstd::string::StringExecFns;

verus! {

/// A task that passed admission and has not finished.
pub struct TaskRecord {
    pub id: TaskId,
    pub policy: TaskPolicy,
    pub state: TaskState,
    /// Holds a permit of the process-wide pool.
    pub global_permit: bool,
    /// Holds a permit of its type's pool.
    pub type_permit: bool,
}

/// A submission blocked behind a running task of its exclusive type.
pub struct Waiter {
    pub id: TaskId,
    pub policy: TaskPolicy,
}

/// The ceiling of a type's permit pool, fixed when the pool is created.
pub struct TypeCeiling {
    pub tag: String,
    pub limit: usize,
}

/// The type tag of a record.
pub open spec fn type_of(r: TaskRecord) -> Seq<char> {
    r.policy.tag@
}

/// The keys a record holds.
pub open spec fn keys_of(r: TaskRecord) -> Set<Seq<char>> {
    names(r.policy.locks@)
}

/// Every key held by some record of `s`.
pub open spec fn held_by(s: Seq<TaskRecord>) -> Set<Seq<char>> {
    Set::new(|k: Seq<char>| exists|i: int| 0 <= i < s.len() && #[trigger] keys_of(s[i]).contains(k))
}

/// Whether a record holds a process-wide permit.
pub open spec fn holds_global(r: TaskRecord) -> bool {
    r.global_permit
}

/// Whether a record holds a permit of type `t`'s pool.
pub open spec fn holds_type(r: TaskRecord, t: Seq<char>) -> bool {
    r.type_permit && type_of(r) == t
}

/// Whether a record of type `t` that declares a ceiling is running.
pub open spec fn runs_with_ceiling(r: TaskRecord, t: Seq<char>) -> bool {
    r.state is Running && r.policy.max_concurrent is Some && type_of(r) == t
}

/// Number of records that hold a process-wide permit.
pub open spec fn global_count(s: Seq<TaskRecord>) -> nat {
    s.filter(|r: TaskRecord| holds_global(r)).len()
}

/// Number of records that hold a permit of type `t`'s pool.
pub open spec fn type_count(s: Seq<TaskRecord>, t: Seq<char>) -> nat {
    s.filter(|r: TaskRecord| holds_type(r, t)).len()
}

/// Number of running records of type `t` that declare a ceiling.
pub open spec fn running_count(s: Seq<TaskRecord>, t: Seq<char>) -> nat {
    s.filter(|r: TaskRecord| runs_with_ceiling(r, t)).len()
}

/// The ceiling recorded for type `t`, the latest entry first.
pub open spec fn limit_of(pools: Seq<TypeCeiling>, t: Seq<char>) -> Option<usize>
    decreases pools.len(),
{
    if pools.len() == 0 {
        None
    } else if pools.last().tag@ == t {
        Some(pools.last().limit)
    } else {
        limit_of(pools.drop_last(), t)
    }
}

/// A freshly admitted record: pending, holding no permit.
pub open spec fn admitted_record(id: TaskId, p: TaskPolicy) -> TaskRecord {
    TaskRecord { id, policy: p, state: TaskState::Pending, global_permit: false, type_permit: false }
}

/// Filtering commutes with replacing one element.
pub proof fn lemma_filter_update(s: Seq<TaskRecord>, i: int, x: TaskRecord, p: spec_fn(TaskRecord) -> bool)
    requires
        0 <= i < s.len(),
    ensures
        s.update(i, x).filter(p).len() + (if p(s[i]) { 1int } else { 0 })
            == s.filter(p).len() + (if p(x) { 1int } else { 0 }),
{
    broadcast use Seq::filter_distributes_over_add;
    let a = s.take(i);
    let b = s.skip(i + 1);
    assert(s =~= a + seq![s[i]] + b);
    assert(s.update(i, x) =~= a + seq![x] + b);
    lemma_filter_single(s[i], p);
    lemma_filter_single(x, p);
}

/// Filtering commutes with removing one element.
pub proof fn lemma_filter_remove(s: Seq<TaskRecord>, i: int, p: spec_fn(TaskRecord) -> bool)
    requires
        0 <= i < s.len(),
    ensures
        s.remove(i).filter(p).len() + (if p(s[i]) { 1int } else { 0 }) == s.filter(p).len(),
{
    broadcast use Seq::filter_distributes_over_add;
    let a = s.take(i);
    let b = s.skip(i + 1);
    assert(s =~= a + seq![s[i]] + b);
    assert(s.remove(i) =~= a + b);
    lemma_filter_single(s[i], p);
}

/// Filtering commutes with appending one element.
pub proof fn lemma_filter_push(s: Seq<TaskRecord>, x: TaskRecord, p: spec_fn(TaskRecord) -> bool)
    ensures
        s.push(x).filter(p).len() == s.filter(p).len() + (if p(x) { 1int } else { 0 }),
{
    broadcast use Seq::filter_distributes_over_add;
    assert(s.push(x) =~= s + seq![x]);
    lemma_filter_single(x, p);
}

/// A one-element sequence keeps its element exactly when it satisfies `p`.
pub proof fn lemma_filter_single(x: TaskRecord, p: spec_fn(TaskRecord) -> bool)
    ensures
        seq![x].filter(p).len() == (if p(x) { 1int } else { 0 }),
{
    reveal_with_fuel(Seq::filter, 2);
    assert(seq![x].drop_last() =~= Seq::<TaskRecord>::empty());
}

/// A filter keeps at least as much as one that is narrower on `s`.
pub proof fn lemma_filter_mono(s: Seq<TaskRecord>, p: spec_fn(TaskRecord) -> bool, q: spec_fn(TaskRecord) -> bool)
    requires
        forall|i: int| 0 <= i < s.len() && #[trigger] p(s[i]) ==> q(s[i]),
    ensures
        s.filter(p).len() <= s.filter(q).len(),
    decreases s.len(),
{
    if s.len() > 0 {
        let d = s.drop_last();
        assert forall|i: int| 0 <= i < d.len() && #[trigger] p(d[i]) implies q(d[i]) by {
            assert(d[i] == s[i]);
        };
        lemma_filter_mono(d, p, q);
        assert(s =~= d.push(s.last()));
        lemma_filter_push(d, s.last(), p);
        lemma_filter_push(d, s.last(), q);
    } else {
        assert(s.filter(p).len() == 0) by { reveal_with_fuel(Seq::filter, 1); };
    }
}

/// Whether a record is running.
pub open spec fn is_running_record(r: TaskRecord) -> bool {
    r.state is Running
}

/// Number of running records.
pub open spec fn running_total(s: Seq<TaskRecord>) -> nat {
    s.filter(|r: TaskRecord| is_running_record(r)).len()
}

/// Keys joined by ", ", in order.
pub open spec fn joined(v: Seq<String>) -> Seq<char>
    decreases v.len(),
{
    if v.len() == 0 {
        Seq::empty()
    } else if v.len() == 1 {
        v[0]@
    } else {
        joined(v.drop_last()) + ", "@ + v.last()@
    }
}

/// The message of a conflict on type `t`'s exclusivity slot.
pub open spec fn slot_conflict_message(t: Seq<char>) -> Seq<char> {
    t + " already running"@
}

/// Joins `keys` with ", ".
pub fn join_keys(keys: &Vec<String>) -> (r: String)
    ensures
        r@ == joined(keys@),
{
    let mut r = String::new();
    let mut i: usize = 0;
    while i < keys.len()
        invariant
            0 <= i <= keys.len(),
            r@ == joined(keys@.take(i as int)),
        decreases keys.len() - i,
    {
        assert(keys@.take(i + 1).drop_last() =~= keys@.take(i as int));
        if i > 0 {
            r.append(", ");
        }
        r.append(keys[i].as_str());
        i = i + 1;
    }
    assert(keys@.take(i as int) =~= keys@);
    r
}

/// How a submission that was not refused went on.
#[derive(Clone, Copy, Debug, PartialEq, Eq, Structural)]
pub enum Admission {
    /// Admitted: the task is pending and holds its resource keys.
    Admitted,
    /// Blocked behind a running task of its exclusive type.
    Queued,
}

/// The outcome of a finished task: its terminal state, and the blocked
/// submission it woke, if any, with that submission's admission result.
pub struct Completion {
    pub state: TaskState,
    pub woken: Option<(TaskId, Result<(), TaskError>)>,
}

/// Position of the most recently queued waiter of type `t`, or -1.
pub open spec fn last_waiter(w: Seq<Waiter>, t: Seq<char>) -> int
    decreases w.len(),
{
    if w.len() == 0 {
        -1
    } else if w.last().policy.tag@ == t {
        w.len() - 1
    } else {
        last_waiter(w.drop_last(), t)
    }
}

/// `last_waiter` names a waiter of type `t` or no position at all.
pub proof fn lemma_last_waiter(w: Seq<Waiter>, t: Seq<char>)
    ensures
        -1 <= last_waiter(w, t) < w.len(),
        last_waiter(w, t) >= 0 ==> w[last_waiter(w, t)].policy.tag@ == t,
        last_waiter(w, t) == -1 ==> forall|i: int| 0 <= i < w.len() ==> (#[trigger] w[i]).policy.tag@ != t,
    decreases w.len(),
{
    if w.len() > 0 {
        lemma_last_waiter(w.drop_last(), t);
        assert forall|i: int| 0 <= i < w.len() - 1 implies #[trigger] w[i] == w.drop_last()[i] by {};
    }
}

/// The scheduling state: admitted tasks, blocked submissions, resource
/// locks and permit pools.
pub struct TaskExecutor {
    lock_manager: LockManager,
    tasks: Vec<TaskRecord>,
    waiting: Vec<Waiter>,
    global_limit: Option<usize>,
    pools: Vec<TypeCeiling>,
}

impl TaskExecutor {
    /// Admitted tasks that have not finished, in order of admission.
    pub closed spec fn tasks(&self) -> Seq<TaskRecord> {
        self.tasks@
    }

    /// Blocked submissions, in order of queueing.
    pub closed spec fn waiting(&self) -> Seq<Waiter> {
        self.waiting@
    }

    /// Resource keys currently held.
    pub closed spec fn held(&self) -> Set<Seq<char>> {
        self.lock_manager@
    }

    /// The process-wide ceiling, if any.
    pub closed spec fn global_limit(&self) -> Option<usize> {
        self.global_limit
    }

    /// The ceiling of type `t`'s permit pool, once created.
    pub closed spec fn ceiling(&self, t: Seq<char>) -> Option<usize> {
        limit_of(self.pools@, t)
    }

    /// Whether some admitted task has identity `id`.
    pub open spec fn has_task(&self, id: TaskId) -> bool {
        exists|i: int| 0 <= i < self.tasks().len() && #[trigger] self.tasks()[i].id == id
    }

    /// Whether some blocked submission has identity `id`.
    pub open spec fn has_waiter(&self, id: TaskId) -> bool {
        exists|i: int| 0 <= i < self.waiting().len() && #[trigger] self.waiting()[i].id == id
    }

    /// Whether an admitted task of type `t` holds that type's exclusivity slot.
    pub open spec fn slot_taken(&self, t: Seq<char>) -> bool {
        exists|i: int|
            0 <= i < self.tasks().len() && #[trigger] type_of(self.tasks()[i]) == t
                && self.tasks()[i].policy.requires_global_lock
    }

    /// The position of task `id` among the admitted tasks.
    pub open spec fn index_of(&self, id: TaskId) -> int {
        choose|i: int| 0 <= i < self.tasks().len() && #[trigger] self.tasks()[i].id == id
    }

    /// The invariant that every operation keeps.
    pub closed spec fn wf(&self) -> bool {
        let s = self.tasks@;
        &&& forall|i: int, j: int| 0 <= i < s.len() && 0 <= j < s.len() && i != j ==> #[trigger] s[i].id != #[trigger] s[j].id
        &&& forall|i: int| 0 <= i < s.len() ==> (#[trigger] s[i].state is Pending || s[i].state is Running)
        &&& forall|i: int, j: int|
            0 <= i < s.len() && 0 <= j < s.len() && i != j && s[i].policy.requires_global_lock
                && s[j].policy.requires_global_lock ==> #[trigger] type_of(s[i]) != #[trigger] type_of(s[j])
        &&& forall|i: int, j: int|
            0 <= i < s.len() && 0 <= j < s.len() && i != j ==> #[trigger] keys_of(s[i]).disjoint(#[trigger] keys_of(s[j]))
        &&& self.lock_manager@ == held_by(s)
        &&& forall|i: int| 0 <= i < s.len() && (#[trigger] s[i]).state is Running ==>
            (self.global_limit is Some ==> s[i].global_permit) && (s[i].policy.max_concurrent is Some ==> s[i].type_permit)
        &&& forall|i: int| 0 <= i < s.len() && ((#[trigger] s[i]).type_permit || s[i].policy.max_concurrent is Some)
            ==> limit_of(self.pools@, type_of(s[i])) is Some
        &&& self.global_limit is Some ==> global_count(s) <= self.global_limit.unwrap()
        &&& forall|t: Seq<char>| #[trigger] limit_of(self.pools@, t) is Some ==> type_count(s, t) <= limit_of(self.pools@, t).unwrap()
        &&& forall|i: int, j: int|
            0 <= i < self.waiting@.len() && 0 <= j < self.waiting@.len() && i != j ==> #[trigger] self.waiting@[i].id != #[trigger] self.waiting@[j].id
        &&& forall|i: int, j: int|
            0 <= i < self.waiting@.len() && 0 <= j < s.len() ==> #[trigger] self.waiting@[i].id != #[trigger] s[j].id
        &&& forall|i: int| 0 <= i < self.waiting@.len() ==> (#[trigger] self.waiting@[i]).policy.requires_global_lock
    }

    /// An executor with no task, holding no lock; `max_concurrent` bounds
    /// how many tasks run at once across all types.
    pub fn new(max_concurrent: Option<usize>) -> (r: Self)
        ensures
            r.wf(),
            r.tasks().len() == 0,
            r.waiting().len() == 0,
            r.held() == Set::<Seq<char>>::empty(),
            r.global_limit() == max_concurrent,
            forall|t: Seq<char>| r.ceiling(t) is None,
    {
        let r = TaskExecutor {
            lock_manager: LockManager::new(),
            tasks: Vec::new(),
            waiting: Vec::new(),
            global_limit: max_concurrent,
            pools: Vec::new(),
        };
        assert(held_by(r.tasks@) =~= Set::<Seq<char>>::empty());
        assert(global_count(r.tasks@) == 0) by { reveal_with_fuel(Seq::filter, 1); };
        assert forall|t: Seq<char>| type_count(r.tasks@, t) == 0 by { reveal_with_fuel(Seq::filter, 1); };
        r
    }

    /// Position of the admitted task `id`, if any.
    fn find_task(&self, id: TaskId) -> (r: Option<usize>)
        requires
            self.wf(),
        ensures
            r is Some <==> self.has_task(id),
            r is Some ==> r->Some_0 < self.tasks().len() && self.tasks()[r->Some_0 as int].id == id
                && r->Some_0 == self.index_of(id),
    {
        let mut i: usize = 0;
        while i < self.tasks.len()
            invariant
                self.wf(),
                0 <= i <= self.tasks.len(),
                forall|j: int| 0 <= j < i ==> (#[trigger] self.tasks@[j]).id != id,
            decreases self.tasks.len() - i,
        {
            if self.tasks[i].id == id {
                assert(self.tasks@[i as int].id == id);
                let ghost k = self.index_of(id);
                assert(self.tasks()[k].id == id);
                assert(0 <= k < self.tasks@.len());
                assert(k == i as int);
                return Some(i);
            }
            i = i + 1;
        }
        None
    }

    /// Whether `id` names an admitted task or a blocked submission.
    pub fn is_known(&self, id: TaskId) -> (r: bool)
        requires
            self.wf(),
        ensures
            r == (self.has_task(id) || self.has_waiter(id)),
    {
        if self.find_task(id).is_some() {
            return true;
        }
        let mut i: usize = 0;
        while i < self.waiting.len()
            invariant
                0 <= i <= self.waiting.len(),
                forall|j: int| 0 <= j < i ==> (#[trigger] self.waiting@[j]).id != id,
            decreases self.waiting.len() - i,
        {
            if self.waiting[i].id == id {
                assert(self.waiting@[i as int].id == id);
                return true;
            }
            i = i + 1;
        }
        false
    }

    /// Whether an admitted task of type `tag` holds the type's exclusivity slot.
    pub fn is_slot_taken(&self, tag: &String) -> (r: bool)
        ensures
            r == self.slot_taken(tag@),
    {
        let mut i: usize = 0;
        while i < self.tasks.len()
            invariant
                0 <= i <= self.tasks.len(),
                forall|j: int| 0 <= j < i ==> !(type_of(#[trigger] self.tasks@[j]) == tag@
                    && self.tasks@[j].policy.requires_global_lock),
            decreases self.tasks.len() - i,
        {
            if self.tasks[i].policy.requires_global_lock && self.tasks[i].policy.tag == *tag {
                assert(type_of(self.tasks@[i as int]) == tag@);
                return true;
            }
            i = i + 1;
        }
        false
    }

    /// The ceiling of type `tag`'s pool, if it was created.
    fn find_ceiling(&self, tag: &String) -> (r: Option<usize>)
        ensures
            r == self.ceiling(tag@),
    {
        let mut i: usize = self.pools.len();
        assert(self.pools@.take(i as int) =~= self.pools@);
        while i > 0
            invariant
                0 <= i <= self.pools.len(),
                limit_of(self.pools@, tag@) == limit_of(self.pools@.take(i as int), tag@),
            decreases i,
        {
            assert(self.pools@.take(i as int).drop_last() =~= self.pools@.take(i - 1));
            if self.pools[i - 1].tag == *tag {
                return Some(self.pools[i - 1].limit);
            }
            i = i - 1;
        }
        None
    }

    /// Number of admitted tasks that hold a process-wide permit.
    fn count_global(&self) -> (r: usize)
        ensures
            r == global_count(self.tasks()),
    {
        let mut c: usize = 0;
        let mut i: usize = 0;
        assert(self.tasks@.take(0int).filter(|r: TaskRecord| holds_global(r)).len() == 0) by { reveal_with_fuel(Seq::filter, 1); };
        while i < self.tasks.len()
            invariant
                0 <= i <= self.tasks.len(),
                c == self.tasks@.take(i as int).filter(|r: TaskRecord| holds_global(r)).len(),
                c <= i,
            decreases self.tasks.len() - i,
        {
            assert(self.tasks@.take(i + 1) =~= self.tasks@.take(i as int).push(self.tasks@[i as int]));
            proof {
                lemma_filter_push(self.tasks@.take(i as int), self.tasks@[i as int], |r: TaskRecord| holds_global(r));
            }
            if self.tasks[i].global_permit {
                c = c + 1;
            }
            i = i + 1;
        }
        assert(self.tasks@.take(i as int) =~= self.tasks@);
        c
    }

    /// Number of admitted tasks that hold a permit of type `tag`'s pool.
    fn count_type(&self, tag: &String) -> (r: usize)
        ensures
            r == type_count(self.tasks(), tag@),
    {
        let mut c: usize = 0;
        let mut i: usize = 0;
        assert(self.tasks@.take(0int).filter(|r: TaskRecord| holds_type(r, tag@)).len() == 0) by { reveal_with_fuel(Seq::filter, 1); };
        while i < self.tasks.len()
            invariant
                0 <= i <= self.tasks.len(),
                c == self.tasks@.take(i as int).filter(|r: TaskRecord| holds_type(r, tag@)).len(),
                c <= i,
            decreases self.tasks.len() - i,
        {
            assert(self.tasks@.take(i + 1) =~= self.tasks@.take(i as int).push(self.tasks@[i as int]));
            proof {
                lemma_filter_push(self.tasks@.take(i as int), self.tasks@[i as int], |r: TaskRecord| holds_type(r, tag@));
            }
            if self.tasks[i].type_permit && self.tasks[i].policy.tag == *tag {
                c = c + 1;
            }
            i = i + 1;
        }
        assert(self.tasks@.take(i as int) =~= self.tasks@);
        c
    }

    /// The ceiling of type `t` once a task with policy `p` is admitted: the
    /// first declared ceiling of a type is kept.
    pub open spec fn ceiling_after(&self, p: TaskPolicy, t: Seq<char>) -> Option<usize> {
        if p.tag@ == t && self.ceiling(t) is None && p.max_concurrent is Some {
            p.max_concurrent
        } else {
            self.ceiling(t)
        }
    }

    /// Admits `policy` under identity `id` if its resource keys are free:
    /// the task is recorded as pending and its keys are held.
    fn accept(&mut self, id: TaskId, policy: TaskPolicy) -> (r: Result<(), TaskError>)
        requires
            old(self).wf(),
            !old(self).has_task(id),
            !old(self).has_waiter(id),
            policy.requires_global_lock ==> !old(self).slot_taken(policy.tag@),
        ensures
            final(self).wf(),
            final(self).waiting() == old(self).waiting(),
            final(self).global_limit() == old(self).global_limit(),
            r is Ok <==> names(policy.locks@).disjoint(old(self).held()),
            r is Ok ==> final(self).tasks() == old(self).tasks().push(admitted_record(id, policy)),
            r is Ok ==> final(self).held() == old(self).held().union(names(policy.locks@)),
            r is Ok ==> forall|t: Seq<char>| #[trigger] final(self).ceiling(t) == old(self).ceiling_after(policy, t),
            r is Err ==> final(self).tasks() == old(self).tasks() && final(self).held() == old(self).held(),
            r is Err ==> forall|t: Seq<char>| #[trigger] final(self).ceiling(t) == old(self).ceiling(t),
            r is Err ==> exists|c: Seq<String>| names(c) == names(policy.locks@).intersect(old(self).held())
                && conflict_of(r->Err_0) == Some(joined(c)),
    {
        let ghost s = self.tasks@;
        let ghost held0 = self.lock_manager@;
        match self.lock_manager.try_acquire(&policy.locks) {
            Err(contended) => {
                let msg = join_keys(&contended);
                Err(TaskError::LockConflict(msg))
            },
            Ok(()) => {
                let ceiling = self.find_ceiling(&policy.tag);
                let ghost pools0 = self.pools@;
                if ceiling.is_none() {
                    if let Some(n) = policy.max_concurrent {
                        proof {
                            assert forall|i: int| 0 <= i < s.len() implies !holds_type(#[trigger] s[i], policy.tag@) by {};
                            assert(s.all(|r: TaskRecord| !holds_type(r, policy.tag@)));
                            s.lemma_all_neg_filter_empty(|r: TaskRecord| holds_type(r, policy.tag@));
                        }
                        self.pools.push(TypeCeiling { tag: policy.tag.clone(), limit: n });
                        assert(self.pools@.drop_last() =~= pools0);
                    }
                }
                proof {
                    assert forall|t: Seq<char>| #[trigger] limit_of(self.pools@, t) == old(self).ceiling_after(policy, t) by {
                        if self.pools@.len() > pools0.len() {
                            assert(self.pools@.drop_last() =~= pools0);
                        }
                    };
                }
                let ghost x = admitted_record(id, policy);
                self.tasks.push(TaskRecord {
                    id,
                    policy,
                    state: TaskState::Pending,
                    global_permit: false,
                    type_permit: false,
                });
                proof {
                    let s2 = self.tasks@;
                    assert(s2 == s.push(x));
                    lemma_filter_push(s, x, |r: TaskRecord| holds_global(r));
                    assert forall|t: Seq<char>| #[trigger] limit_of(self.pools@, t) is Some implies type_count(s2, t) <= limit_of(self.pools@, t).unwrap() by {
                        lemma_filter_push(s, x, |r: TaskRecord| holds_type(r, t));
                        if limit_of(pools0, t) is Some {
                            assert(limit_of(self.pools@, t) == limit_of(pools0, t));
                        }
                    };
                    assert forall|k: Seq<char>| #[trigger] self.lock_manager@.contains(k) == held_by(s2).contains(k) by {
                        if held_by(s2).contains(k) {
                            let i = choose|i: int| 0 <= i < s2.len() && #[trigger] keys_of(s2[i]).contains(k);
                            if i < s.len() {
                                assert(keys_of(s[i]).contains(k));
                            }
                        }
                        if held0.contains(k) {
                            let i = choose|i: int| 0 <= i < s.len() && #[trigger] keys_of(s[i]).contains(k);
                            assert(keys_of(s2[i]).contains(k));
                        } else if self.lock_manager@.contains(k) {
                            assert(keys_of(s2[s.len() as int]).contains(k));
                        }
                    };
                    assert(self.lock_manager@ =~= held_by(s2));
                    assert forall|i: int, j: int| 0 <= i < s2.len() && 0 <= j < s2.len() && i != j
                        implies #[trigger] keys_of(s2[i]).disjoint(#[trigger] keys_of(s2[j])) by {
                        if i == s.len() {
                            assert forall|k: Seq<char>| keys_of(s2[j]).contains(k) implies !keys_of(s2[i]).contains(k) by {
                                assert(held_by(s).contains(k));
                            };
                        } else if j == s.len() {
                            assert forall|k: Seq<char>| keys_of(s2[i]).contains(k) implies !keys_of(s2[j]).contains(k) by {
                                assert(held_by(s).contains(k));
                            };
                        }
                    };
                    assert forall|i: int| 0 <= i < s2.len() && ((#[trigger] s2[i]).type_permit || s2[i].policy.max_concurrent is Some)
                        implies limit_of(self.pools@, type_of(s2[i])) is Some by {
                        if i < s.len() {
                            assert(limit_of(pools0, type_of(s[i])) is Some);
                        }
                    };
                }
                Ok(())
            },
        }
    }

    /// Whether two executors are in the same scheduling state.
    pub open spec fn same_as(&self, o: &Self) -> bool {
        &&& self.tasks() == o.tasks()
        &&& self.waiting() == o.waiting()
        &&& self.held() == o.held()
        &&& self.global_limit() == o.global_limit()
        &&& forall|t: Seq<char>| #[trigger] self.ceiling(t) == o.ceiling(t)
    }

    /// Submits a task with identity `id` and policy `policy`.
    ///
    /// A task whose type requires exclusivity while another task of that
    /// type holds the slot is refused when it is not queueable, and queued
    /// otherwise. Any other task is admitted if its resource keys are free.
    pub fn submit(&mut self, id: TaskId, policy: TaskPolicy) -> (r: Result<Admission, TaskError>)
        requires
            old(self).wf(),
        ensures
            final(self).wf(),
            final(self).global_limit() == old(self).global_limit(),
            submit_post(*old(self), *final(self), id, policy, r),
    {
        if self.is_known(id) {
            return Err(TaskError::InvalidState);
        }
        if policy.requires_global_lock && self.is_slot_taken(&policy.tag) {
            if !policy.queueable {
                let mut msg = policy.tag.clone();
                msg.append(" already running");
                return Err(TaskError::LockConflict(msg));
            }
            let ghost w0 = self.waiting@;
            self.waiting.push(Waiter { id, policy });
            proof {
                assert forall|i: int, j: int|
                    0 <= i < self.waiting@.len() && 0 <= j < self.waiting@.len() && i != j
                    implies #[trigger] self.waiting@[i].id != #[trigger] self.waiting@[j].id by {
                    if i == w0.len() {
                        assert(w0[j].id == self.waiting@[j].id);
                    } else if j == w0.len() {
                        assert(w0[i].id == self.waiting@[i].id);
                    }
                };
                assert forall|i: int, j: int| 0 <= i < self.waiting@.len() && 0 <= j < self.tasks@.len()
                    implies #[trigger] self.waiting@[i].id != #[trigger] self.tasks@[j].id by {
                    if i < w0.len() {
                        assert(w0[i].id == self.waiting@[i].id);
                    } else {
                        assert(self.tasks()[j].id == self.tasks@[j].id);
                    }
                };
            }
            return Ok(Admission::Queued);
        }
        match self.accept(id, policy) {
            Ok(()) => Ok(Admission::Admitted),
            Err(e) => Err(e),
        }
    }

    /// The record at position `i` once the permit gates are tried: first a
    /// process-wide permit, then one of its type's pool; it runs once it
    /// holds every permit its policy needs.
    pub open spec fn gated(&self, i: int) -> TaskRecord {
        let r = self.tasks()[i];
        let need_g = self.global_limit() is Some && !r.global_permit;
        let got_g = !need_g || global_count(self.tasks()) < self.global_limit().unwrap();
        let need_t = r.policy.max_concurrent is Some && !r.type_permit;
        let got_t = !need_t || type_count(self.tasks(), type_of(r)) < self.ceiling(type_of(r)).unwrap();
        TaskRecord {
            id: r.id,
            policy: r.policy,
            state: if got_g && got_t { TaskState::Running } else { TaskState::Pending },
            global_permit: r.global_permit || (need_g && got_g),
            type_permit: r.type_permit || (got_g && need_t && got_t),
        }
    }

    /// Whether task `id` is admitted and still pending.
    pub open spec fn is_pending(&self, id: TaskId) -> bool {
        self.has_task(id) && self.tasks()[self.index_of(id)].state is Pending
    }

    /// Whether task `id` is admitted and running.
    pub open spec fn is_running(&self, id: TaskId) -> bool {
        self.has_task(id) && self.tasks()[self.index_of(id)].state is Running
    }

    /// Tries to move the pending task `id` past the permit gates; returns
    /// whether it now runs. A permit taken is kept while the task waits for
    /// the next one.
    pub fn try_start(&mut self, id: TaskId) -> (r: Result<bool, TaskError>)
        requires
            old(self).wf(),
        ensures
            final(self).wf(),
            start_post(*old(self), *final(self), id, r),
    {
        let i = match self.find_task(id) {
            Some(i) => i,
            None => return Err(TaskError::InvalidState),
        };
        if self.tasks[i].state != TaskState::Pending {
            return Err(TaskError::InvalidState);
        }
        let ghost s = self.tasks@;
        let ghost x = self.gated(i as int);
        let mut global_permit = self.tasks[i].global_permit;
        let mut type_permit = self.tasks[i].type_permit;
        let mut running = true;
        if let Some(n) = self.global_limit {
            if !global_permit {
                if self.count_global() < n {
                    global_permit = true;
                } else {
                    running = false;
                }
            }
        }
        if running && self.tasks[i].policy.max_concurrent.is_some() && !type_permit {
            let limit = match self.find_ceiling(&self.tasks[i].policy.tag) {
                Some(n) => n,
                None => 0,
            };
            if self.count_type(&self.tasks[i].policy.tag) < limit {
                type_permit = true;
            } else {
                running = false;
            }
        }
        let mut rec = self.tasks.remove(i);
        rec.global_permit = global_permit;
        rec.type_permit = type_permit;
        rec.state = if running { TaskState::Running } else { TaskState::Pending };
        self.tasks.insert(i, rec);
        proof {
            let s2 = self.tasks@;
            assert(s2 =~= s.update(i as int, x));
            lemma_filter_update(s, i as int, x, |r: TaskRecord| holds_global(r));
            assert forall|t: Seq<char>| #[trigger] limit_of(self.pools@, t) is Some implies type_count(s2, t) <= limit_of(self.pools@, t).unwrap() by {
                lemma_filter_update(s, i as int, x, |r: TaskRecord| holds_type(r, t));
            };
            assert forall|k: Seq<char>| #[trigger] held_by(s2).contains(k) == held_by(s).contains(k) by {
                if held_by(s2).contains(k) {
                    let j = choose|j: int| 0 <= j < s2.len() && #[trigger] keys_of(s2[j]).contains(k);
                    assert(keys_of(s[j]).contains(k));
                }
                if held_by(s).contains(k) {
                    let j = choose|j: int| 0 <= j < s.len() && #[trigger] keys_of(s[j]).contains(k);
                    assert(keys_of(s2[j]).contains(k));
                }
            };
            assert(held_by(s2) =~= held_by(s));
            assert forall|a: int, b: int| 0 <= a < s2.len() && 0 <= b < s2.len() && a != b
                implies #[trigger] keys_of(s2[a]).disjoint(#[trigger] keys_of(s2[b])) by {
                assert(keys_of(s[a]).disjoint(keys_of(s[b])));
            };
            assert forall|a: int, b: int| 0 <= a < s2.len() && 0 <= b < s2.len() && a != b && s2[a].policy.requires_global_lock
                && s2[b].policy.requires_global_lock implies #[trigger] type_of(s2[a]) != #[trigger] type_of(s2[b]) by {
                assert(type_of(s[a]) != type_of(s[b]));
            };
            assert forall|j: int| 0 <= j < s2.len() && ((#[trigger] s2[j]).type_permit || s2[j].policy.max_concurrent is Some)
                implies limit_of(self.pools@, type_of(s2[j])) is Some by {
                assert(s[j].type_permit || s[j].policy.max_concurrent is Some);
            };
        }
        Ok(running)
    }

    /// Position of the most recently queued waiter of type `tag`.
    fn find_last_waiter(&self, tag: &String) -> (r: Option<usize>)
        ensures
            r is None ==> last_waiter(self.waiting(), tag@) == -1,
            r is Some ==> r->Some_0 == last_waiter(self.waiting(), tag@),
    {
        let mut i: usize = self.waiting.len();
        assert(self.waiting@.take(i as int) =~= self.waiting@);
        while i > 0
            invariant
                0 <= i <= self.waiting.len(),
                last_waiter(self.waiting@, tag@) == last_waiter(self.waiting@.take(i as int), tag@),
            decreases i,
        {
            assert(self.waiting@.take(i as int).drop_last() =~= self.waiting@.take(i - 1));
            if self.waiting[i - 1].policy.tag == *tag {
                return Some(i - 1);
            }
            i = i - 1;
        }
        None
    }

    /// Records that the running task `id` finished, successfully or not:
    /// its resource keys and permits are released, and, if its type is
    /// exclusive, the most recently queued waiter of that type is woken and
    /// admitted in the same step.
    pub fn complete(&mut self, id: TaskId, succeeded: bool) -> (r: Result<Completion, TaskError>)
        requires
            old(self).wf(),
        ensures
            final(self).wf(),
            final(self).global_limit() == old(self).global_limit(),
            complete_post(*old(self), *final(self), id, succeeded, r),
    {
        let i = match self.find_task(id) {
            Some(i) => i,
            None => return Err(TaskError::InvalidState),
        };
        if self.tasks[i].state != TaskState::Running {
            return Err(TaskError::InvalidState);
        }
        let ghost s = self.tasks@;
        let rec = self.tasks.remove(i);
        self.lock_manager.release(&rec.policy.locks);
        proof {
            let s2 = self.tasks@;
            assert(s2 == s.remove(i as int));
            assert forall|a: int| 0 <= a < s2.len() implies #[trigger] s2[a] == s[if a < i { a } else { a + 1 }] by {};
            lemma_filter_remove(s, i as int, |r: TaskRecord| holds_global(r));
            assert forall|t: Seq<char>| #[trigger] limit_of(self.pools@, t) is Some implies type_count(s2, t) <= limit_of(self.pools@, t).unwrap() by {
                lemma_filter_remove(s, i as int, |r: TaskRecord| holds_type(r, t));
            };
            assert forall|k: Seq<char>| #[trigger] self.lock_manager@.contains(k) == held_by(s2).contains(k) by {
                if held_by(s2).contains(k) {
                    let a = choose|a: int| 0 <= a < s2.len() && #[trigger] keys_of(s2[a]).contains(k);
                    let b = if a < i { a } else { a + 1 };
                    assert(keys_of(s[b]).contains(k));
                    assert(keys_of(s[b]).disjoint(keys_of(s[i as int])));
                }
                if self.lock_manager@.contains(k) {
                    let b = choose|b: int| 0 <= b < s.len() && #[trigger] keys_of(s[b]).contains(k);
                    if b < i {
                        assert(keys_of(s2[b]).contains(k));
                    } else {
                        assert(b != i);
                        assert(keys_of(s2[b - 1]).contains(k));
                    }
                }
            };
            assert(self.lock_manager@ =~= held_by(s2));
            assert forall|a: int, b: int| 0 <= a < s2.len() && 0 <= b < s2.len() && a != b
                implies #[trigger] keys_of(s2[a]).disjoint(#[trigger] keys_of(s2[b])) by {
                let a1 = if a < i { a } else { a + 1 };
                let b1 = if b < i { b } else { b + 1 };
                assert(keys_of(s[a1]).disjoint(keys_of(s[b1])));
            };
            assert forall|a: int, b: int| 0 <= a < s2.len() && 0 <= b < s2.len() && a != b && s2[a].policy.requires_global_lock
                && s2[b].policy.requires_global_lock implies #[trigger] type_of(s2[a]) != #[trigger] type_of(s2[b]) by {
                let a1 = if a < i { a } else { a + 1 };
                let b1 = if b < i { b } else { b + 1 };
                assert(type_of(s[a1]) != type_of(s[b1]));
            };
            assert forall|a: int, b: int| 0 <= a < s2.len() && 0 <= b < s2.len() && a != b
                implies #[trigger] s2[a].id != #[trigger] s2[b].id by {
                let a1 = if a < i { a } else { a + 1 };
                let b1 = if b < i { b } else { b + 1 };
                assert(s[a1].id != s[b1].id);
            };
            assert forall|a: int, b: int| 0 <= a < self.waiting@.len() && 0 <= b < s2.len()
                implies #[trigger] self.waiting@[a].id != #[trigger] s2[b].id by {
                let b1 = if b < i { b } else { b + 1 };
                assert(self.waiting@[a].id != s[b1].id);
            };
            assert forall|a: int| 0 <= a < s2.len() implies #[trigger] s2[a].id != id by {
                let a1 = if a < i { a } else { a + 1 };
                assert(s[a1].id != s[i as int].id);
            };
            assert(self.wf());
            assert(rec.policy.requires_global_lock ==> !self.slot_taken(rec.policy.tag@)) by {
                if rec.policy.requires_global_lock && self.slot_taken(rec.policy.tag@) {
                    let a = choose|a: int| 0 <= a < s2.len() && #[trigger] type_of(s2[a]) == rec.policy.tag@
                        && s2[a].policy.requires_global_lock;
                    let a1 = if a < i { a } else { a + 1 };
                    assert(type_of(s[a1]) != type_of(s[i as int]));
                }
            };
        }
        let state = if succeeded { TaskState::Completed } else { TaskState::Failed };
        if rec.policy.requires_global_lock {
            if let Some(w) = self.find_last_waiter(&rec.policy.tag) {
                let ghost w0 = self.waiting@;
                proof {
                    lemma_last_waiter(w0, rec.policy.tag@);
                }
                let waiter = self.waiting.remove(w);
                proof {
                    assert forall|a: int| 0 <= a < self.waiting@.len() implies #[trigger] self.waiting@[a]
                        == w0[if a < w { a } else { a + 1 }] by {};
                    assert forall|a: int, b: int| 0 <= a < self.waiting@.len() && 0 <= b < self.waiting@.len() && a != b
                        implies #[trigger] self.waiting@[a].id != #[trigger] self.waiting@[b].id by {
                        let a1 = if a < w { a } else { a + 1 };
                        let b1 = if b < w { b } else { b + 1 };
                        assert(w0[a1].id != w0[b1].id);
                    };
                    assert forall|a: int| 0 <= a < self.waiting@.len() implies #[trigger] self.waiting@[a].id != waiter.id by {
                        let a1 = if a < w { a } else { a + 1 };
                        assert(w0[a1].id != w0[w as int].id);
                    };
                    assert forall|a: int| 0 <= a < self.tasks@.len() implies #[trigger] self.tasks@[a].id != waiter.id by {
                        assert(w0[w as int].id != self.tasks@[a].id);
                    };
                    assert(self.wf());
                }
                let wid = waiter.id;
                let res = self.accept(waiter.id, waiter.policy);
                proof {
                    assert forall|a: int| 0 <= a < self.tasks@.len() implies #[trigger] self.tasks@[a].id != id by {
                        if a < s.len() - 1 {
                        } else {
                            assert(w0[w as int].id != s[i as int].id);
                        }
                    };
                }
                return Ok(Completion { state, woken: Some((wid, res)) });
            }
        }
        Ok(Completion { state, woken: None })
    }
}

/// What `TaskExecutor::submit` guarantees, from state `o` to state `n`.
pub open spec fn submit_post(o: TaskExecutor, n: TaskExecutor, id: TaskId, policy: TaskPolicy, r: Result<Admission, TaskError>) -> bool {
    &&& o.has_task(id) || o.has_waiter(id) ==> r is Err && r->Err_0 is InvalidState
            && n.same_as(&o)
    &&& !o.has_task(id) && !o.has_waiter(id) && policy.requires_global_lock
            && o.slot_taken(policy.tag@) && !policy.queueable
            ==> r is Err && conflict_of(r->Err_0) == Some(slot_conflict_message(policy.tag@))
            && n.same_as(&o)
    &&& !o.has_task(id) && !o.has_waiter(id) && policy.requires_global_lock
            && o.slot_taken(policy.tag@) && policy.queueable
            ==> r == Ok::<Admission, TaskError>(Admission::Queued)
            && n.waiting() == o.waiting().push((Waiter { id, policy }))
            && n.tasks() == o.tasks() && n.held() == o.held()
            && forall|t: Seq<char>| #[trigger] n.ceiling(t) == o.ceiling(t)
    &&& !o.has_task(id) && !o.has_waiter(id)
            && !(policy.requires_global_lock && o.slot_taken(policy.tag@)) ==> {
            &&& n.waiting() == o.waiting()
            &&& (r is Ok <==> names(policy.locks@).disjoint(o.held()))
            &&& r is Ok ==> r == Ok::<Admission, TaskError>(Admission::Admitted)
                && n.tasks() == o.tasks().push(admitted_record(id, policy))
                && n.held() == o.held().union(names(policy.locks@))
                && forall|t: Seq<char>| #[trigger] n.ceiling(t) == o.ceiling_after(policy, t)
            &&& r is Err ==> n.same_as(&o) && exists|c: Seq<String>|
                names(c) == names(policy.locks@).intersect(o.held())
                && conflict_of(r->Err_0) == Some(joined(c))
    }
}

/// What `TaskExecutor::try_start` guarantees, from state `o` to state `n`.
pub open spec fn start_post(o: TaskExecutor, n: TaskExecutor, id: TaskId, r: Result<bool, TaskError>) -> bool {
    &&& r is Err <==> !o.is_pending(id)
    &&& r is Err ==> r->Err_0 is InvalidState && n.same_as(&o)
    &&& r is Ok ==> {
            let i = o.index_of(id);
            &&& n.tasks() == o.tasks().update(i, o.gated(i))
            &&& r->Ok_0 == (o.gated(i).state is Running)
            &&& n.waiting() == o.waiting()
            &&& n.held() == o.held()
            &&& n.global_limit() == o.global_limit()
            &&& forall|t: Seq<char>| #[trigger] n.ceiling(t) == o.ceiling(t)
    }
}

/// What `TaskExecutor::complete` guarantees, from state `o` to state `n`.
pub open spec fn complete_post(o: TaskExecutor, n: TaskExecutor, id: TaskId, succeeded: bool, r: Result<Completion, TaskError>) -> bool {
    &&& r is Err <==> !o.is_running(id)
    &&& r is Err ==> r->Err_0 is InvalidState && n.same_as(&o)
    &&& r is Ok ==> {
            let i = o.index_of(id);
            let rec = o.tasks()[i];
            let rest = o.tasks().remove(i);
            let freed = o.held().difference(keys_of(rec));
            let w = last_waiter(o.waiting(), type_of(rec));
            let c = r->Ok_0;
            &&& c.state == (if succeeded { TaskState::Completed } else { TaskState::Failed })
            &&& !n.has_task(id)
            &&& !(rec.policy.requires_global_lock && w >= 0) ==> {
                &&& c.woken is None
                &&& n.tasks() == rest
                &&& n.held() == freed
                &&& n.waiting() == o.waiting()
                &&& forall|t: Seq<char>| #[trigger] n.ceiling(t) == o.ceiling(t)
            }
            &&& rec.policy.requires_global_lock && w >= 0 ==> {
                let wt = o.waiting()[w];
                let res = c.woken->Some_0.1;
                &&& c.woken is Some && c.woken->Some_0.0 == wt.id
                &&& n.waiting() == o.waiting().remove(w)
                &&& (res is Ok <==> names(wt.policy.locks@).disjoint(freed))
                &&& res is Ok ==> n.tasks() == rest.push(admitted_record(wt.id, wt.policy))
                    && n.held() == freed.union(names(wt.policy.locks@))
                    && forall|t: Seq<char>| #[trigger] n.ceiling(t) == o.ceiling_after(wt.policy, t)
                &&& res is Err ==> n.tasks() == rest && n.held() == freed
                    && (forall|t: Seq<char>| #[trigger] n.ceiling(t) == o.ceiling(t))
                    && exists|m: Seq<String>| names(m) == names(wt.policy.locks@).intersect(freed)
                        && conflict_of(res->Err_0) == Some(joined(m))
            }
    }
}

/// A blocked submission is never an admitted task.
pub proof fn lemma_waiter_not_admitted(e: &TaskExecutor, i: int)
    requires
        e.wf(),
        0 <= i < e.waiting().len(),
    ensures
        !e.has_task(e.waiting()[i].id),
{
    if e.has_task(e.waiting()[i].id) {
        let j = choose|j: int| 0 <= j < e.tasks().len() && #[trigger] e.tasks()[j].id == e.waiting()[i].id;
        assert(e.waiting@[i].id != e.tasks@[j].id);
    }
}

/// Hand-over of an exclusivity slot: once the task holding its type's slot
/// completes and the woken waiter is admitted, the finished task is gone
/// and the woken task is the only holder of that type's slot.
pub proof fn lemma_slot_handover(o: &TaskExecutor, n: &TaskExecutor, id: TaskId, succeeded: bool, r: Result<Completion, TaskError>)
    requires
        o.wf(),
        n.wf(),
        complete_post(*o, *n, id, succeeded, r),
        r is Ok,
        r->Ok_0.woken is Some,
        r->Ok_0.woken->Some_0.1 is Ok,
    ensures
        !n.has_task(id),
        n.has_task(r->Ok_0.woken->Some_0.0),
        n.slot_taken(type_of(o.tasks()[o.index_of(id)])),
        forall|i: int| 0 <= i < n.tasks().len() && (#[trigger] n.tasks()[i]).policy.requires_global_lock
            && type_of(n.tasks()[i]) == type_of(o.tasks()[o.index_of(id)]) ==> n.tasks()[i].id == r->Ok_0.woken->Some_0.0,
{
    let t = type_of(o.tasks()[o.index_of(id)]);
    let w = last_waiter(o.waiting(), t);
    lemma_last_waiter(o.waiting(), t);
    let last = n.tasks().len() - 1;
    assert(n.tasks()[last].id == r->Ok_0.woken->Some_0.0);
    assert(o.waiting@[w].policy.requires_global_lock);
    assert(type_of(n.tasks()[last]) == t);
    assert forall|i: int| 0 <= i < n.tasks().len() && (#[trigger] n.tasks()[i]).policy.requires_global_lock
        && type_of(n.tasks()[i]) == t implies n.tasks()[i].id == r->Ok_0.woken->Some_0.0 by {
        if i != last {
            assert(type_of(n.tasks@[i]) != type_of(n.tasks@[last]));
        }
    };
}

/// Type exclusivity: two admitted tasks of one type that requires the
/// global lock are the same task, so no two of them ever run at once.
pub proof fn lemma_type_exclusive(e: &TaskExecutor, i: int, j: int)
    requires
        e.wf(),
        0 <= i < e.tasks().len(),
        0 <= j < e.tasks().len(),
        e.tasks()[i].policy.requires_global_lock,
        e.tasks()[j].policy.requires_global_lock,
        type_of(e.tasks()[i]) == type_of(e.tasks()[j]),
    ensures
        i == j,
{
}

/// Resource locks: a key is held by at most one admitted task, and the held
/// keys are exactly those of the admitted tasks.
pub proof fn lemma_keys_exclusive(e: &TaskExecutor, i: int, j: int, k: Seq<char>)
    requires
        e.wf(),
        0 <= i < e.tasks().len(),
        0 <= j < e.tasks().len(),
        keys_of(e.tasks()[i]).contains(k),
        keys_of(e.tasks()[j]).contains(k),
    ensures
        i == j,
        e.held().contains(k),
{
    if i != j {
        assert(keys_of(e.tasks()[i]).disjoint(keys_of(e.tasks()[j])));
    }
}

/// Type ceilings: a type's running tasks that declare a ceiling never
/// outnumber the ceiling of the type's pool, and that pool exists.
pub proof fn lemma_type_ceiling(e: &TaskExecutor, t: Seq<char>)
    requires
        e.wf(),
    ensures
        running_count(e.tasks(), t) > 0 ==> e.ceiling(t) is Some,
        e.ceiling(t) is Some ==> running_count(e.tasks(), t) <= e.ceiling(t).unwrap(),
{
    let s = e.tasks();
    lemma_filter_mono(s, |r: TaskRecord| runs_with_ceiling(r, t), |r: TaskRecord| holds_type(r, t));
    if running_count(s, t) > 0 {
        let f = s.filter(|r: TaskRecord| runs_with_ceiling(r, t));
        s.filter_lemma(|r: TaskRecord| runs_with_ceiling(r, t));
        assert(f.contains(f[0]));
        s.lemma_filter_contains_rev(|r: TaskRecord| runs_with_ceiling(r, t), f[0]);
        let i = choose|i: int| 0 <= i < s.len() && s[i] == f[0];
        assert(runs_with_ceiling(s[i], t));
        assert(limit_of(e.pools@, type_of(s[i])) is Some);
    }
}

/// The process-wide ceiling: running tasks never outnumber it.
pub proof fn lemma_global_ceiling(e: &TaskExecutor)
    requires
        e.wf(),
        e.global_limit() is Some,
    ensures
        running_total(e.tasks()) <= e.global_limit().unwrap(),
{
    lemma_filter_mono(e.tasks(), |r: TaskRecord| is_running_record(r), |r: TaskRecord| holds_global(r));
}

} // verus!
