//! Admission control: named mutex and semaphore locks, granted FIFO and
//! re-derivable from node status.

use vstd::prelude::*;

use crate::errors::AdmissionError;
use crate::node::NodeStatus;
use crate::strvec::{
    contains_str, contains_view, find_view, lemma_remove_view_absent, lemma_remove_view_at,
    nodup_views, remove_view, views_disjoint,
};

verus! {

/// Outcome of a lock request.
#[derive(Clone, Copy, Debug, PartialEq, Eq, Structural)]
pub enum AcquireOutcome {
    Granted,
    Blocked,
}

/// What one `request` call does to a lock: a holder or waiter is left as
/// it stands; a fresh request is granted at once when a slot is free and
/// otherwise joins the back of the queue.
pub open spec fn request_step(pre: SyncLock, post: SyncLock, node: String, r: AcquireOutcome) -> bool {
    &&& post.name == pre.name
    &&& post.capacity == pre.capacity
    &&& (r == AcquireOutcome::Granted) == post.spec_holds(node@)
    &&& (r == AcquireOutcome::Blocked) == post.spec_waits(node@)
    &&& pre.spec_holds(node@) ==> post == pre
    &&& pre.spec_waits(node@) ==> post == pre
    &&& !pre.spec_holds(node@) && !pre.spec_waits(node@) && pre.holders@.len() < pre.capacity
        ==> post.holders@ == pre.holders@.push(node) && post.waiters@ == pre.waiters@
    &&& !pre.spec_holds(node@) && !pre.spec_waits(node@) && pre.holders@.len() >= pre.capacity
        ==> post.holders@ == pre.holders@ && post.waiters@ == pre.waiters@.push(node)
}

/// What one `release` call does to a lock: the node's id leaves holders
/// and queue, and the freed capacity goes to the earliest waiters in
/// queue order.
pub open spec fn release_step(pre: SyncLock, post: SyncLock, node: String) -> bool {
    &&& post.name == pre.name
    &&& post.capacity == pre.capacity
    &&& !post.spec_holds(node@)
    &&& !post.spec_waits(node@)
    &&& ({
        let h1 = remove_view(pre.holders@, node@);
        let w1 = remove_view(pre.waiters@, node@);
        let free = pre.capacity - h1.len();
        let k: int = if free < w1.len() {
            free
        } else {
            w1.len() as int
        };
        &&& post.holders@ == h1 + w1.take(k)
        &&& post.waiters@ == w1.skip(k)
    })
}

/// One named lock: a semaphore of the declared capacity, a mutex when the
/// capacity is 1. `holders` are the node ids currently admitted; `waiters`
/// is the FIFO queue of blocked requests, earliest first.
#[derive(Clone, Debug, PartialEq, Eq)]
pub struct SyncLock {
    pub name: String,
    pub capacity: u32,
    pub holders: Vec<String>,
    pub waiters: Vec<String>,
}

impl SyncLock {
    /// Invariant: never more holders than capacity; a node appears at most
    /// once over holders and waiters; nobody waits while a slot is free.
    pub open spec fn wf(self) -> bool {
        &&& self.capacity >= 1
        &&& self.holders@.len() <= self.capacity
        &&& nodup_views(self.holders@)
        &&& nodup_views(self.waiters@)
        &&& views_disjoint(self.holders@, self.waiters@)
        &&& self.waiters@.len() > 0 ==> self.holders@.len() == self.capacity
    }

    pub open spec fn spec_holds(self, node: Seq<char>) -> bool {
        contains_view(self.holders@, node)
    }

    pub open spec fn spec_waits(self, node: Seq<char>) -> bool {
        contains_view(self.waiters@, node)
    }

    /// A fresh semaphore of the given capacity.
    pub fn new(name: &str, capacity: u32) -> (r: SyncLock)
        requires
            capacity >= 1,
        ensures
            r.name@ == name@,
            r.capacity == capacity,
            r.holders@.len() == 0,
            r.waiters@.len() == 0,
            r.wf(),
    {
        SyncLock { name: name.to_owned(), capacity, holders: Vec::new(), waiters: Vec::new() }
    }

    /// A mutex: a lock of capacity 1.
    pub fn new_mutex(name: &str) -> (r: SyncLock)
        ensures
            r.name@ == name@,
            r.capacity == 1,
            r.holders@.len() == 0,
            r.waiters@.len() == 0,
            r.wf(),
    {
        SyncLock::new(name, 1)
    }

    /// Request the lock for a node. Granted at once exactly when the node
    /// already holds it or a slot is free — and by the invariant a slot is
    /// free only when nobody waits, so a late request can never jump the
    /// queue. Otherwise the node joins the back of the queue.
    pub fn request(&mut self, node: &String) -> (r: AcquireOutcome)
        requires
            old(self).wf(),
        ensures
            final(self).wf(),
            request_step(*old(self), *final(self), *node, r),
    {
        if contains_str(&self.holders, node) {
            return AcquireOutcome::Granted;
        }
        if contains_str(&self.waiters, node) {
            return AcquireOutcome::Blocked;
        }
        if self.holders.len() < self.capacity as usize {
            self.holders.push(node.clone());
            assert(self.holders@[self.holders@.len() - 1]@ == node@);
            AcquireOutcome::Granted
        } else {
            self.waiters.push(node.clone());
            assert(self.waiters@[self.waiters@.len() - 1]@ == node@);
            AcquireOutcome::Blocked
        }
    }

    /// Release the lock for a node: its id leaves the holders (and the
    /// queue, had it still been waiting), and the freed slots are granted
    /// to the earliest waiters, in queue order.
    pub fn release(&mut self, node: &String)
        requires
            old(self).wf(),
        ensures
            final(self).wf(),
            release_step(*old(self), *final(self), *node),
    {
        let ghost pre = *self;
        match find_view(&self.holders, node) {
            Some(i) => {
                self.holders.remove(i);
                proof {
                    lemma_remove_view_at(pre.holders@, node@, i as int);
                    lemma_remove_view_absent(pre.waiters@, node@);
                }
                if self.holders.len() < self.capacity as usize && self.waiters.len() > 0 {
                    let granted = self.waiters.remove(0);
                    self.holders.push(granted);
                    proof {
                        let h1 = remove_view(pre.holders@, node@);
                        let w1 = remove_view(pre.waiters@, node@);
                        assert(w1 == pre.waiters@);
                        assert(self.holders@ =~= h1 + w1.take(1));
                        assert(self.waiters@ =~= w1.skip(1));
                    }
                } else {
                    proof {
                        let h1 = remove_view(pre.holders@, node@);
                        let w1 = remove_view(pre.waiters@, node@);
                        assert(self.holders@ =~= h1 + w1.take(0));
                        assert(self.waiters@ =~= w1.skip(0));
                    }
                }
            },
            None => {
                proof {
                    lemma_remove_view_absent(pre.holders@, node@);
                }
                match find_view(&self.waiters, node) {
                    Some(i) => {
                        self.waiters.remove(i);
                        proof {
                            lemma_remove_view_at(pre.waiters@, node@, i as int);
                            let w1 = remove_view(pre.waiters@, node@);
                            assert(self.waiters@ =~= w1.skip(0));
                            assert(self.holders@ =~= pre.holders@ + w1.take(0));
                        }
                    },
                    None => {
                        proof {
                            lemma_remove_view_absent(pre.waiters@, node@);
                            let w1 = remove_view(pre.waiters@, node@);
                            assert(self.waiters@ =~= w1.skip(0));
                            assert(self.holders@ =~= pre.holders@ + w1.take(0));
                        }
                    },
                }
            },
        }
    }
}

/// The cross-workflow lock table: every lock of the orchestrator instance,
/// keyed by name.
#[derive(Clone, Debug, PartialEq, Eq)]
pub struct SyncManager {
    pub locks: Vec<SyncLock>,
}

impl SyncManager {
    pub open spec fn wf(self) -> bool {
        &&& forall|i: int| 0 <= i < self.locks@.len() ==> (#[trigger] self.locks@[i]).wf()
        &&& forall|i: int, j: int|
            0 <= i < j < self.locks@.len() ==> self.locks@[i].name@ != self.locks@[j].name@
    }

    pub open spec fn spec_has_lock(self, name: Seq<char>) -> bool {
        exists|i: int| 0 <= i < self.locks@.len() && self.locks@[i].name@ == name
    }

    pub fn new() -> (r: SyncManager)
        ensures
            r.locks@.len() == 0,
            r.wf(),
    {
        SyncManager { locks: Vec::new() }
    }

    /// Index of the lock of the given name, if one is declared.
    pub fn find_lock(&self, name: &String) -> (r: Option<usize>)
        ensures
            match r {
                Some(i) => i < self.locks@.len() && self.locks@[i as int].name@ == name@,
                None => !self.spec_has_lock(name@),
            },
    {
        let mut i: usize = 0;
        while i < self.locks.len()
            invariant
                i <= self.locks@.len(),
                forall|j: int| 0 <= j < i ==> self.locks@[j].name@ != name@,
            decreases self.locks@.len() - i,
        {
            if self.locks[i].name.eq(name) {
                return Some(i);
            }
            i = i + 1;
        }
        None
    }

    /// Declare a semaphore of the given capacity. Returns `false`, and
    /// changes nothing, when the name is already declared.
    pub fn declare(&mut self, name: &str, capacity: u32) -> (r: bool)
        requires
            old(self).wf(),
            capacity >= 1,
        ensures
            final(self).wf(),
            r == !old(self).spec_has_lock(name@),
            !r ==> *final(self) == *old(self),
            r ==> {
                &&& final(self).locks@.len() == old(self).locks@.len() + 1
                &&& final(self).locks@.take(old(self).locks@.len() as int) == old(self).locks@
                &&& final(self).locks@.last().name@ == name@
                &&& final(self).locks@.last().capacity == capacity
                &&& final(self).locks@.last().holders@.len() == 0
                &&& final(self).locks@.last().waiters@.len() == 0
            },
            final(self).spec_has_lock(name@),
    {
        let key = name.to_owned();
        match self.find_lock(&key) {
            Some(i) => {
                assert(self.locks@[i as int].name@ == name@);
                false
            },
            None => {
                self.locks.push(SyncLock::new(name, capacity));
                proof {
                    let n = old(self).locks@.len() as int;
                    assert(self.locks@.take(n) =~= old(self).locks@);
                    assert(self.locks@[n].name@ == name@);
                }
                true
            },
        }
    }

    /// Request the named lock for a node. `Err(UndeclaredLock)` exactly
    /// when no lock of that name is declared; otherwise the one lock of
    /// that name takes a `request_step` and every other lock stands.
    pub fn acquire(&mut self, node: &String, name: &String) -> (r: Result<
        AcquireOutcome,
        AdmissionError,
    >)
        requires
            old(self).wf(),
        ensures
            final(self).wf(),
            r is Err <==> !old(self).spec_has_lock(name@),
            r is Err ==> *final(self) == *old(self) && r == Err::<AcquireOutcome, AdmissionError>(
                AdmissionError::UndeclaredLock,
            ),
            r matches Ok(out) ==> exists|i: int|
                {
                    &&& 0 <= i < old(self).locks@.len()
                    &&& (#[trigger] old(self).locks@[i]).name@ == name@
                    &&& request_step(old(self).locks@[i], final(self).locks@[i], *node, out)
                    &&& final(self).locks@ == old(self).locks@.update(i, final(self).locks@[i])
                },
    {
        match self.find_lock(name) {
            Some(i) => {
                let ghost pre = self.locks@;
                let lk = &mut self.locks[i];
                let out = lk.request(node);
                proof {
                    assert(self.locks@ =~= pre.update(i as int, self.locks@[i as int]));
                }
                Ok(out)
            },
            None => Err(AdmissionError::UndeclaredLock),
        }
    }

    /// Release the named lock for a node; a release of an undeclared name
    /// changes nothing.
    pub fn release(&mut self, node: &String, name: &String)
        requires
            old(self).wf(),
        ensures
            final(self).wf(),
            !old(self).spec_has_lock(name@) ==> *final(self) == *old(self),
            old(self).spec_has_lock(name@) ==> exists|i: int|
                {
                    &&& 0 <= i < old(self).locks@.len()
                    &&& (#[trigger] old(self).locks@[i]).name@ == name@
                    &&& release_step(old(self).locks@[i], final(self).locks@[i], *node)
                    &&& final(self).locks@ == old(self).locks@.update(i, final(self).locks@[i])
                },
    {
        match self.find_lock(name) {
            Some(i) => {
                let ghost pre = self.locks@;
                let lk = &mut self.locks[i];
                lk.release(node);
                proof {
                    assert(self.locks@ =~= pre.update(i as int, self.locks@[i as int]));
                }
            },
            None => {},
        }
    }

    /// Release every lock the node may hold or wait on: the automatic
    /// release performed exactly once, when the node reaches a terminal
    /// phase.
    pub fn release_all(&mut self, node: &String)
        requires
            old(self).wf(),
        ensures
            final(self).wf(),
            final(self).locks@.len() == old(self).locks@.len(),
            forall|i: int|
                0 <= i < old(self).locks@.len() ==> release_step(
                    (#[trigger] old(self).locks@[i]),
                    final(self).locks@[i],
                    *node,
                ),
    {
        let mut i: usize = 0;
        while i < self.locks.len()
            invariant
                i <= self.locks@.len(),
                self.locks@.len() == old(self).locks@.len(),
                forall|j: int|
                    0 <= j < i ==> release_step(
                        (#[trigger] old(self).locks@[j]),
                        self.locks@[j],
                        *node,
                    ),
                forall|j: int| i <= j < self.locks@.len() ==> self.locks@[j] == old(
                    self,
                ).locks@[j],
                forall|j: int| 0 <= j < self.locks@.len() ==> (#[trigger] self.locks@[j]).wf(),
            decreases self.locks@.len() - i,
        {
            let lk = &mut self.locks[i];
            lk.release(node);
            i = i + 1;
        }
        proof {
            assert forall|i: int, j: int| 0 <= i < j < self.locks@.len() implies self.locks@[i].name@
                != self.locks@[j].name@ by {
                assert(release_step(old(self).locks@[i], self.locks@[i], *node));
                assert(release_step(old(self).locks@[j], self.locks@[j], *node));
            }
        }
    }
}

/// The node holds the named lock of the table.
pub open spec fn spec_holds_lock(m: SyncManager, node: Seq<char>, name: Seq<char>) -> bool {
    exists|i: int|
        0 <= i < m.locks@.len() && (#[trigger] m.locks@[i]).name@ == name && contains_view(
            m.locks@[i].holders@,
            node,
        )
}

impl SyncManager {
    /// Does the node hold every one of the named locks? Only then is its
    /// `Pending -> Running` transition permitted.
    pub fn holds_all(&self, node: &String, names: &Vec<String>) -> (r: bool)
        requires
            self.wf(),
        ensures
            r == forall|k: int|
                0 <= k < names@.len() ==> spec_holds_lock(*self, node@, (#[trigger] names@[k])@),
    {
        let mut k: usize = 0;
        while k < names.len()
            invariant
                self.wf(),
                k <= names@.len(),
                forall|j: int|
                    0 <= j < k ==> spec_holds_lock(*self, node@, (#[trigger] names@[j])@),
            decreases names@.len() - k,
        {
            let found = self.find_lock(&names[k]);
            let held = match found {
                Some(i) => contains_str(&self.locks[i].holders, node),
                None => false,
            };
            if !held {
                proof {
                    if spec_holds_lock(*self, node@, names@[k as int]@) {
                        let i = choose|i: int|
                            0 <= i < self.locks@.len() && (#[trigger] self.locks@[i]).name@
                                == names@[k as int]@ && contains_view(
                                self.locks@[i].holders@,
                                node@,
                            );
                        match found {
                            Some(fi) => {
                                if i != fi as int {
                                    assert(self.locks@[i].name@ == self.locks@[fi as int].name@);
                                    assert(false);
                                }
                            },
                            None => {
                                assert(!self.spec_has_lock(names@[k as int]@));
                                assert(false);
                            },
                        }
                    }
                }
                return false;
            }
            k = k + 1;
        }
        true
    }
}

/// Start a node: the `Pending -> Running` transition, permitted only
/// once the synchronization manager has granted every lock the node's
/// template declares. With a lock still missing the node stands as it
/// is, to be started on a later evaluation tick.
pub fn start_node(
    node: &mut NodeStatus,
    locks: &SyncManager,
    required: &Vec<String>,
    now: u64,
) -> (r: Result<(), crate::errors::PhaseError>)
    requires
        old(node).wf(),
        locks.wf(),
    ensures
        final(node).wf(),
        r is Ok <==> (old(node).phase.spec_can_step_to(crate::phase::NodePhase::Running)
            && forall|k: int|
            0 <= k < required@.len() ==> spec_holds_lock(
                *locks,
                old(node).id@,
                (#[trigger] required@[k])@,
            )),
        r is Ok ==> final(node).phase == crate::phase::NodePhase::Running
            && final(node).started_at == (if old(node).phase == crate::phase::NodePhase::Pending {
            Some(now)
        } else {
            old(node).started_at
        }) && final(node).finished_at == old(node).finished_at
            && crate::node::NodeStatus::eq_except_phase_times(*old(node), *final(node)),
        r is Err ==> *final(node) == *old(node) && r == Err::<(), crate::errors::PhaseError>(
            crate::errors::PhaseError::IllegalTransition,
        ),
{
    let granted = locks.holds_all(&node.id, required);
    if granted {
        node.transition_to(crate::phase::NodePhase::Running, now)
    } else {
        Err(crate::errors::PhaseError::IllegalTransition)
    }
}

/// Does this node, by its own status, hold the named lock? Terminal nodes
/// hold nothing: release is automatic at the terminal transition.
pub open spec fn node_holds_lock(n: NodeStatus, lock: Seq<char>) -> bool {
    !n.phase.spec_is_terminal() && contains_view(n.held_locks@, lock)
}

/// The holder ids of a lock as re-derived from node status, in node order.
pub open spec fn derived_holders(nodes: Seq<NodeStatus>, lock: Seq<char>) -> Seq<String>
    decreases nodes.len(),
{
    if nodes.len() == 0 {
        Seq::empty()
    } else {
        derived_holders(nodes.drop_last(), lock) + if node_holds_lock(nodes.last(), lock) {
            seq![nodes.last().id]
        } else {
            Seq::empty()
        }
    }
}

/// Reconstruct a lock from node status alone, as the reconciliation pass
/// does after a crash: the holders are the non-terminal nodes that record
/// the lock as held. The queue is not reconstructed — blocked nodes
/// re-request on the next evaluation tick.
pub fn rebuild_lock(name: &String, capacity: u32, nodes: &Vec<NodeStatus>) -> (r: SyncLock)
    requires
        capacity >= 1,
        derived_holders(nodes@, name@).len() <= capacity,
        nodup_views(derived_holders(nodes@, name@)),
    ensures
        r.name@ == name@,
        r.capacity == capacity,
        r.holders@ == derived_holders(nodes@, name@),
        r.waiters@.len() == 0,
        r.wf(),
{
    let mut holders: Vec<String> = Vec::new();
    let mut i: usize = 0;
    while i < nodes.len()
        invariant
            i <= nodes@.len(),
            holders@ == derived_holders(nodes@.take(i as int), name@),
        decreases nodes@.len() - i,
    {
        let n = &nodes[i];
        if !n.phase.is_terminal() && contains_str(&n.held_locks, name) {
            holders.push(n.id.clone());
        }
        proof {
            assert(nodes@.take(i + 1).drop_last() =~= nodes@.take(i as int));
            assert(nodes@.take(i + 1).last() == nodes@[i as int]);
        }
        i = i + 1;
    }
    proof {
        assert(nodes@.take(nodes@.len() as int) =~= nodes@);
    }
    SyncLock { name: name.clone(), capacity, holders, waiters: Vec::new() }
}

/// Law (admission bound): a well-formed lock never has more concurrent
/// holders than its declared capacity — every operation above preserves
/// `wf`, so this holds at every instant.
pub proof fn lemma_holders_bounded(m: SyncManager, i: int)
    requires
        m.wf(),
        0 <= i < m.locks@.len(),
    ensures
        m.locks@[i].holders@.len() <= m.locks@[i].capacity,
{
}

/// Law (FIFO fairness): when a holder releases a contended lock, the node
/// granted the freed slot is exactly the earliest waiter; everyone else
/// keeps their place in the queue.
pub proof fn lemma_release_grants_earliest_waiter(pre: SyncLock, post: SyncLock, node: String)
    requires
        pre.wf(),
        release_step(pre, post, node),
        pre.spec_holds(node@),
        pre.waiters@.len() > 0,
    ensures
        post.holders@ == remove_view(pre.holders@, node@).push(pre.waiters@[0]),
        post.waiters@ == pre.waiters@.drop_first(),
{
    let i = choose|i: int| 0 <= i < pre.holders@.len() && pre.holders@[i]@ == node@;
    assert(forall|j: int| 0 <= j < i ==> pre.holders@[j]@ != node@);
    lemma_remove_view_at(pre.holders@, node@, i);
    assert(!contains_view(pre.waiters@, node@));
    lemma_remove_view_absent(pre.waiters@, node@);
    let h1 = remove_view(pre.holders@, node@);
    let w1 = remove_view(pre.waiters@, node@);
    assert(h1.len() == pre.capacity - 1);
    assert(post.holders@ =~= h1.push(pre.waiters@[0]));
    assert(post.waiters@ =~= pre.waiters@.drop_first());
}

/// Law (crash recovery): a lock table consistent with node status — each
/// lock's holders are exactly those the nodes record as held — is restored
/// by re-derivation: rebuilding from the same node status yields the same
/// name, capacity and holders.
pub proof fn lemma_rebuild_restores(pre: SyncLock, post: SyncLock, nodes: Seq<NodeStatus>)
    requires
        pre.holders@ == derived_holders(nodes, pre.name@),
        post.name@ == pre.name@,
        post.capacity == pre.capacity,
        post.holders@ == derived_holders(nodes, post.name@),
    ensures
        post.holders@ == pre.holders@,
        post.capacity == pre.capacity,
{
}

} // verus!
