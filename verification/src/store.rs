//! The template store: name resolution, submission-time validation of
//! template references and lock declarations, and the pre-submission
//! check that the template graph is free of cycles.

use vstd::prelude::*;

use crate::errors::{AdmissionError, DefinitionError};
use crate::locks::SyncManager;
use crate::template::{Template, TemplateKind};

verus! {

/// Index of the first template of the given name.
pub open spec fn tmpl_index(ts: Seq<Template>, name: Seq<char>) -> Option<int>
    decreases ts.len(),
{
    if ts.len() == 0 {
        None
    } else if ts[0].name@ == name {
        Some(0)
    } else {
        match tmpl_index(ts.drop_first(), name) {
            Some(j) => Some(j + 1),
            None => None,
        }
    }
}

/// `tmpl_index` answers the first index carrying the name, or none.
pub proof fn lemma_tmpl_index_char(ts: Seq<Template>, name: Seq<char>)
    ensures
        match tmpl_index(ts, name) {
            Some(j) => 0 <= j < ts.len() && ts[j].name@ == name && forall|k: int|
                0 <= k < j ==> (#[trigger] ts[k]).name@ != name,
            None => forall|k: int| 0 <= k < ts.len() ==> (#[trigger] ts[k]).name@ != name,
        },
    decreases ts.len(),
{
    if ts.len() > 0 {
        lemma_tmpl_index_char(ts.drop_first(), name);
        assert(forall|k: int| 1 <= k < ts.len() ==> ts.drop_first()[k - 1] == ts[k]);
    }
}

/// Template `t` invokes a template of the given name.
pub open spec fn references(t: Template, name: Seq<char>) -> bool {
    match t.kind {
        TemplateKind::Dag(d) => exists|i: int|
            0 <= i < d.tasks@.len() && (#[trigger] d.tasks@[i]).template@ == name,
        TemplateKind::Steps(s) => exists|j: int, k: int|
            0 <= j < s.stages@.len() && 0 <= k < s.stages@[j]@.len() && (
            #[trigger] s.stages@[j]@[k]).template@ == name,
        _ => false,
    }
}

/// Every template reference inside `t` names a template of the store.
pub open spec fn refs_resolve(ts: Seq<Template>, t: Template) -> bool {
    match t.kind {
        TemplateKind::Dag(d) => forall|i: int|
            0 <= i < d.tasks@.len() ==> tmpl_index(ts, (#[trigger] d.tasks@[i]).template@) is Some,
        TemplateKind::Steps(s) => forall|j: int, k: int|
            0 <= j < s.stages@.len() && 0 <= k < s.stages@[j]@.len() ==> tmpl_index(
                ts,
                (#[trigger] s.stages@[j]@[k]).template@,
            ) is Some,
        _ => true,
    }
}

/// Every lock `t` declares to need is declared with the manager.
pub open spec fn locks_declared(m: SyncManager, t: Template) -> bool {
    match t.synchronization {
        Some(sy) => {
            &&& forall|i: int|
                0 <= i < sy.mutexes@.len() ==> m.spec_has_lock((#[trigger] sy.mutexes@[i])@)
            &&& forall|i: int|
                0 <= i < sy.semaphores@.len() ==> m.spec_has_lock((#[trigger] sy.semaphores@[i])@)
        },
        None => true,
    }
}

/// A set of template indices that can never be processed: each member
/// references another member, so the graph has a cycle through them.
pub open spec fn blocked_set(ts: Seq<Template>, rem: Set<int>) -> bool {
    &&& rem.finite()
    &&& rem.len() > 0
    &&& forall|t: int|
        rem.contains(t) ==> 0 <= t < ts.len() && exists|name: Seq<char>|
            references(ts[t], name) && (tmpl_index(ts, name) matches Some(j) && rem.contains(j))
}

/// Each ordered template comes after every template it invokes: the
/// property a topological order witnesses.
pub open spec fn ordered_refs(ts: Seq<Template>, order: Seq<usize>) -> bool {
    forall|p: int, name: Seq<char>|
        #![trigger references(ts[order[p] as int], name)]
        0 <= p < order.len() && references(ts[order[p] as int], name) ==> (tmpl_index(ts, name)
            matches Some(j) ==> exists|q: int| 0 <= q < p && order[q] == j)
}

/// A complete build order: each template exactly once, in range, each
/// after every template it invokes.
pub open spec fn complete_order(ts: Seq<Template>, order: Seq<usize>) -> bool {
    &&& order.len() == ts.len()
    &&& forall|p: int| 0 <= p < order.len() ==> (#[trigger] order[p]) < ts.len()
    &&& forall|p: int, q: int| 0 <= p < q < order.len() ==> order[p] != order[q]
    &&& ordered_refs(ts, order)
}

/// The template graph admits a complete build order: it has no cycle.
pub open spec fn acyclic(ts: Seq<Template>) -> bool {
    exists|order: Seq<usize>| complete_order(ts, order)
}

/// Unique task names, and every dependency names a task of the graph.
pub open spec fn dag_tasks_valid(d: crate::template::DagTemplate) -> bool {
    &&& forall|i: int, j: int|
        0 <= i < j < d.tasks@.len() ==> d.tasks@[i].name@ != d.tasks@[j].name@
    &&& forall|i: int, k: int|
        0 <= i < d.tasks@.len() && 0 <= k < d.tasks@[i].depends@.len() ==> crate::dag::task_index(
            d.tasks@,
            (#[trigger] d.tasks@[i].depends@[k])@,
        ) is Some
}

/// The task graph of `t` is well-formed (vacuous for non-DAG kinds).
pub open spec fn tasks_valid(t: Template) -> bool {
    match t.kind {
        TemplateKind::Dag(d) => dag_tasks_valid(d),
        _ => true,
    }
}

/// The store of one workflow: its templates, resolved by name.
#[derive(Clone, Debug, PartialEq, Eq)]
pub struct TemplateStore {
    pub templates: Vec<Template>,
}

impl TemplateStore {
    /// Resolve a template name to its definition; `TemplateNotFound`
    /// exactly when no template of that name exists.
    pub fn resolve(&self, name: &String) -> (r: Result<&Template, DefinitionError>)
        ensures
            r is Ok <==> tmpl_index(self.templates@, name@) is Some,
            r matches Ok(t) ==> (tmpl_index(self.templates@, name@) matches Some(j) && *t
                == self.templates@[j]),
            r is Err ==> r == Err::<&Template, DefinitionError>(DefinitionError::TemplateNotFound),
    {
        let mut i: usize = 0;
        while i < self.templates.len()
            invariant
                i <= self.templates@.len(),
                forall|j: int| 0 <= j < i ==> (#[trigger] self.templates@[j]).name@ != name@,
            decreases self.templates@.len() - i,
        {
            if self.templates[i].name.eq(name) {
                proof {
                    lemma_tmpl_index_char(self.templates@, name@);
                    match tmpl_index(self.templates@, name@) {
                        Some(j) => {
                            if j < i {
                                assert(self.templates@[j].name@ != name@);
                            }
                            if j > i {
                                assert((#[trigger] self.templates@[i as int]).name@ != name@);
                            }
                        },
                        None => {
                            assert((#[trigger] self.templates@[i as int]).name@ != name@);
                        },
                    }
                }
                return Ok(&self.templates[i]);
            }
            i = i + 1;
        }
        proof {
            lemma_tmpl_index_char(self.templates@, name@);
        }
        Err(DefinitionError::TemplateNotFound)
    }

    /// Does a template of this name exist?
    pub fn has_template(&self, name: &String) -> (r: bool)
        ensures
            r == (tmpl_index(self.templates@, name@) is Some),
    {
        match self.resolve(name) {
            Ok(_) => true,
            Err(_) => false,
        }
    }

    /// Check that every task and step of template `i` invokes a template
    /// that exists.
    fn check_refs(&self, i: usize) -> (r: bool)
        requires
            i < self.templates@.len(),
        ensures
            r == refs_resolve(self.templates@, self.templates@[i as int]),
    {
        match &self.templates[i].kind {
            TemplateKind::Dag(d) => {
                let tasks = &d.tasks;
                let mut k: usize = 0;
                while k < tasks.len()
                    invariant
                        i < self.templates@.len(),
                        self.templates@[i as int].kind matches TemplateKind::Dag(dd)
                            && dd.tasks == *tasks,
                        k <= tasks@.len(),
                        forall|j: int|
                            0 <= j < k ==> tmpl_index(
                                self.templates@,
                                (#[trigger] tasks@[j]).template@,
                            ) is Some,
                    decreases tasks@.len() - k,
                {
                    if !self.has_template(&tasks[k].template) {
                        assert(tmpl_index(
                            self.templates@,
                            tasks@[k as int].template@,
                        ) is None);
                        return false;
                    }
                    k = k + 1;
                }
                true
            },
            TemplateKind::Steps(s) => {
                let stages = &s.stages;
                let mut j: usize = 0;
                while j < stages.len()
                    invariant
                        i < self.templates@.len(),
                        self.templates@[i as int].kind matches TemplateKind::Steps(ss)
                            && ss.stages == *stages,
                        j <= stages@.len(),
                        forall|a: int, b: int|
                            0 <= a < j && 0 <= b < stages@[a]@.len() ==> tmpl_index(
                                self.templates@,
                                (#[trigger] stages@[a]@[b]).template@,
                            ) is Some,
                    decreases stages@.len() - j,
                {
                    let row = &stages[j];
                    let mut k: usize = 0;
                    while k < row.len()
                        invariant
                            i < self.templates@.len(),
                            self.templates@[i as int].kind matches TemplateKind::Steps(ss)
                                && ss.stages == *stages,
                            j < stages@.len(),
                            row == &stages@[j as int],
                            k <= row@.len(),
                            forall|b: int|
                                0 <= b < k ==> tmpl_index(
                                    self.templates@,
                                    (#[trigger] stages@[j as int]@[b]).template@,
                                ) is Some,
                        decreases row@.len() - k,
                    {
                        if !self.has_template(&row[k].template) {
                            proof {
                                let t = self.templates@[i as int];
                                match t.kind {
                                    TemplateKind::Steps(ss2) => {
                                        assert(ss2.stages@ == stages@);
                                        assert(tmpl_index(
                                            self.templates@,
                                            (ss2.stages@[j as int]@[k as int]).template@,
                                        ) is None);
                                    },
                                    _ => {
                                        assert(false);
                                    },
                                }
                            }
                            return false;
                        }
                        k = k + 1;
                    }
                    j = j + 1;
                }
                true
            },
            _ => true,
        }
    }

    /// Validate every template reference of the store: `TemplateNotFound`
    /// exactly when some task or step invokes a name that is absent.
    pub fn validate_refs(&self) -> (r: Result<(), DefinitionError>)
        ensures
            r is Ok <==> forall|i: int|
                0 <= i < self.templates@.len() ==> refs_resolve(
                    self.templates@,
                    #[trigger] self.templates@[i],
                ),
            r is Err ==> r == Err::<(), DefinitionError>(DefinitionError::TemplateNotFound),
    {
        let mut i: usize = 0;
        while i < self.templates.len()
            invariant
                i <= self.templates@.len(),
                forall|j: int|
                    0 <= j < i ==> refs_resolve(self.templates@, #[trigger] self.templates@[j]),
            decreases self.templates@.len() - i,
        {
            if !self.check_refs(i) {
                return Err(DefinitionError::TemplateNotFound);
            }
            i = i + 1;
        }
        Ok(())
    }

    /// Validate the lock requirements of every template against the
    /// declared locks: `UndeclaredLock` exactly when some template names
    /// a mutex or semaphore the manager does not know.
    pub fn validate_locks(&self, m: &SyncManager) -> (r: Result<(), AdmissionError>)
        ensures
            r is Ok <==> forall|i: int|
                0 <= i < self.templates@.len() ==> locks_declared(
                    *m,
                    #[trigger] self.templates@[i],
                ),
            r is Err ==> r == Err::<(), AdmissionError>(AdmissionError::UndeclaredLock),
    {
        let mut i: usize = 0;
        while i < self.templates.len()
            invariant
                i <= self.templates@.len(),
                forall|j: int|
                    0 <= j < i ==> locks_declared(*m, #[trigger] self.templates@[j]),
            decreases self.templates@.len() - i,
        {
            match &self.templates[i].synchronization {
                Some(sy) => {
                    let mut k: usize = 0;
                    while k < sy.mutexes.len()
                        invariant
                            i < self.templates@.len(),
                            self.templates@[i as int].synchronization matches Some(sg)
                                && sg == *sy,
                            k <= sy.mutexes@.len(),
                            forall|a: int|
                                0 <= a < k ==> m.spec_has_lock((#[trigger] sy.mutexes@[a])@),
                        decreases sy.mutexes@.len() - k,
                    {
                        match m.find_lock(&sy.mutexes[k]) {
                            Some(ix) => {
                                assert(m.locks@[ix as int].name@ == sy.mutexes@[k as int]@);
                            },
                            None => {
                                return Err(AdmissionError::UndeclaredLock);
                            },
                        }
                        k = k + 1;
                    }
                    let mut k2: usize = 0;
                    while k2 < sy.semaphores.len()
                        invariant
                            i < self.templates@.len(),
                            self.templates@[i as int].synchronization matches Some(sg)
                                && sg == *sy,
                            k2 <= sy.semaphores@.len(),
                            forall|a: int|
                                0 <= a < sy.mutexes@.len() ==> m.spec_has_lock(
                                    (#[trigger] sy.mutexes@[a])@,
                                ),
                            forall|a: int|
                                0 <= a < k2 ==> m.spec_has_lock((#[trigger] sy.semaphores@[a])@),
                        decreases sy.semaphores@.len() - k2,
                    {
                        match m.find_lock(&sy.semaphores[k2]) {
                            Some(ix) => {
                                assert(m.locks@[ix as int].name@ == sy.semaphores@[k2 as int]@);
                            },
                            None => {
                                return Err(AdmissionError::UndeclaredLock);
                            },
                        }
                        k2 = k2 + 1;
                    }
                },
                None => {},
            }
            i = i + 1;
        }
        Ok(())
    }
}

/// Whether each template reference, by name, lands on an already-ordered
/// template. An absent name is no obstacle here: `validate_refs` rejects
/// it separately.
pub open spec fn ref_done(ts: Seq<Template>, done: Seq<bool>, name: Seq<char>) -> bool {
    match tmpl_index(ts, name) {
        Some(j) => done[j],
        None => true,
    }
}

/// Template `i` can be ordered: every template it invokes already is.
pub open spec fn spec_processable(ts: Seq<Template>, done: Seq<bool>, i: int) -> bool {
    match ts[i].kind {
        TemplateKind::Dag(d) => forall|a: int|
            0 <= a < d.tasks@.len() ==> ref_done(ts, done, (#[trigger] d.tasks@[a]).template@),
        TemplateKind::Steps(s) => forall|a: int, b: int|
            0 <= a < s.stages@.len() && 0 <= b < s.stages@[a]@.len() ==> ref_done(
                ts,
                done,
                (#[trigger] s.stages@[a]@[b]).template@,
            ),
        _ => true,
    }
}

/// How many entries of `s` are set.
pub open spec fn count_true(s: Seq<bool>) -> int
    decreases s.len(),
{
    if s.len() == 0 {
        0
    } else {
        count_true(s.drop_last()) + if s.last() {
            1int
        } else {
            0
        }
    }
}

proof fn lemma_count_true_update(s: Seq<bool>, i: int)
    requires
        0 <= i < s.len(),
        !s[i],
    ensures
        count_true(s.update(i, true)) == count_true(s) + 1,
    decreases s.len(),
{
    if i == s.len() - 1 {
        assert(s.update(i, true).drop_last() =~= s.drop_last());
    } else {
        assert(s.update(i, true).drop_last() =~= s.drop_last().update(i, true));
        lemma_count_true_update(s.drop_last(), i);
    }
}

proof fn lemma_count_true_all(s: Seq<bool>)
    requires
        forall|i: int| 0 <= i < s.len() ==> s[i],
    ensures
        count_true(s) == s.len(),
    decreases s.len(),
{
    if s.len() > 0 {
        lemma_count_true_all(s.drop_last());
    }
}

impl TemplateStore {
    /// Can template `i` be ordered now?
    fn processable(&self, i: usize, done: &Vec<bool>) -> (r: bool)
        requires
            i < self.templates@.len(),
            done@.len() == self.templates@.len(),
        ensures
            r == spec_processable(self.templates@, done@, i as int),
    {
        match &self.templates[i].kind {
            TemplateKind::Dag(d) => {
                let tasks = &d.tasks;
                let mut k: usize = 0;
                while k < tasks.len()
                    invariant
                        i < self.templates@.len(),
                        done@.len() == self.templates@.len(),
                        self.templates@[i as int].kind matches TemplateKind::Dag(dd)
                            && dd.tasks == *tasks,
                        k <= tasks@.len(),
                        forall|a: int|
                            0 <= a < k ==> ref_done(
                                self.templates@,
                                done@,
                                (#[trigger] tasks@[a]).template@,
                            ),
                    decreases tasks@.len() - k,
                {
                    let ok = match self.index_of(&tasks[k].template) {
                        Some(j) => done[j],
                        None => true,
                    };
                    if !ok {
                        return false;
                    }
                    k = k + 1;
                }
                true
            },
            TemplateKind::Steps(st) => {
                let stages = &st.stages;
                let mut a: usize = 0;
                while a < stages.len()
                    invariant
                        i < self.templates@.len(),
                        done@.len() == self.templates@.len(),
                        self.templates@[i as int].kind matches TemplateKind::Steps(ss)
                            && ss.stages == *stages,
                        a <= stages@.len(),
                        forall|x: int, y: int|
                            0 <= x < a && 0 <= y < stages@[x]@.len() ==> ref_done(
                                self.templates@,
                                done@,
                                (#[trigger] stages@[x]@[y]).template@,
                            ),
                    decreases stages@.len() - a,
                {
                    let row = &stages[a];
                    let mut b: usize = 0;
                    while b < row.len()
                        invariant
                            i < self.templates@.len(),
                            done@.len() == self.templates@.len(),
                            self.templates@[i as int].kind matches TemplateKind::Steps(ss)
                                && ss.stages == *stages,
                            a < stages@.len(),
                            row == &stages@[a as int],
                            b <= row@.len(),
                            forall|y: int|
                                0 <= y < b ==> ref_done(
                                    self.templates@,
                                    done@,
                                    (#[trigger] stages@[a as int]@[y]).template@,
                                ),
                        decreases row@.len() - b,
                    {
                        let ok = match self.index_of(&row[b].template) {
                            Some(j) => done[j],
                            None => true,
                        };
                        if !ok {
                            return false;
                        }
                        b = b + 1;
                    }
                    a = a + 1;
                }
                true
            },
            _ => true,
        }
    }

    /// Index of the template of this name, agreeing with `tmpl_index`.
    pub fn index_of(&self, name: &String) -> (r: Option<usize>)
        ensures
            match r {
                Some(i) => i < self.templates@.len() && tmpl_index(self.templates@, name@)
                    == Some(i as int),
                None => tmpl_index(self.templates@, name@) is None,
            },
    {
        let mut i: usize = 0;
        while i < self.templates.len()
            invariant
                i <= self.templates@.len(),
                forall|j: int| 0 <= j < i ==> (#[trigger] self.templates@[j]).name@ != name@,
            decreases self.templates@.len() - i,
        {
            if self.templates[i].name.eq(name) {
                proof {
                    lemma_tmpl_index_char(self.templates@, name@);
                    match tmpl_index(self.templates@, name@) {
                        Some(j) => {
                            if j < i {
                                assert(self.templates@[j].name@ != name@);
                            }
                            if j > i {
                                assert((#[trigger] self.templates@[i as int]).name@ != name@);
                            }
                        },
                        None => {
                            assert((#[trigger] self.templates@[i as int]).name@ != name@);
                        },
                    }
                }
                return Some(i);
            }
            i = i + 1;
        }
        proof {
            lemma_tmpl_index_char(self.templates@, name@);
        }
        None
    }

    /// Find an unordered template that can be ordered now.
    fn pick_next(&self, done: &Vec<bool>) -> (r: Option<usize>)
        requires
            done@.len() == self.templates@.len(),
        ensures
            match r {
                Some(i) => i < self.templates@.len() && !done@[i as int] && spec_processable(
                    self.templates@,
                    done@,
                    i as int,
                ),
                None => forall|i: int|
                    0 <= i < self.templates@.len() ==> (#[trigger] done@[i])
                        || !spec_processable(self.templates@, done@, i),
            },
    {
        let mut i: usize = 0;
        while i < self.templates.len()
            invariant
                done@.len() == self.templates@.len(),
                i <= self.templates@.len(),
                forall|j: int|
                    0 <= j < i ==> (#[trigger] done@[j]) || !spec_processable(
                        self.templates@,
                        done@,
                        j,
                    ),
            decreases self.templates@.len() - i,
        {
            if !done[i] && self.processable(i, done) {
                return Some(i);
            }
            i = i + 1;
        }
        None
    }

    /// The pre-submission reachability check: order the templates so
    /// that each comes after every template it invokes. When that is
    /// possible the order is the witness; when it is not, some templates
    /// reference each other in a cycle — a blocked set remains, and the
    /// definition is rejected.
    #[verifier::rlimit(100)]
    pub fn topo_order(&self) -> (r: Result<Vec<usize>, DefinitionError>)
        ensures
            r is Ok <==> acyclic(self.templates@),
            r matches Ok(order) ==> complete_order(self.templates@, order@),
            r is Err ==> r == Err::<Vec<usize>, DefinitionError>(
                DefinitionError::RecursiveTemplateGraph,
            ) && exists|rem: Set<int>| blocked_set(self.templates@, rem),
    {
        let n = self.templates.len();
        let mut done: Vec<bool> = Vec::new();
        let mut i: usize = 0;
        while i < n
            invariant
                i <= n,
                done@.len() == i,
                forall|j: int| 0 <= j < i ==> !(#[trigger] done@[j]),
            decreases n - i,
        {
            done.push(false);
            i = i + 1;
        }
        proof {
            assert(count_true(done@) == 0) by {
                lemma_count_all_false(done@);
            }
        }
        let mut order: Vec<usize> = Vec::new();
        while order.len() < n
            invariant
                n == self.templates@.len(),
                done@.len() == n,
                order@.len() <= n,
                count_true(done@) == order@.len(),
                forall|t: int|
                    0 <= t < n ==> ((#[trigger] done@[t]) <==> exists|q: int|
                        0 <= q < order@.len() && order@[q] == t),
                forall|p: int| 0 <= p < order@.len() ==> (#[trigger] order@[p]) < n,
                forall|p: int, q: int| 0 <= p < q < order@.len() ==> order@[p] != order@[q],
                ordered_refs(self.templates@, order@),
            decreases n - order@.len(),
        {
            match self.pick_next(&done) {
                Some(t) => {
                    let ghost done0 = done@;
                    let ghost order0 = order@;
                    done.set(t, true);
                    order.push(t);
                    proof {
                        lemma_count_true_update(done0, t as int);
                        assert(order@ =~= order0.push(t));
                        assert(done@ =~= done0.update(t as int, true));
                        lemma_order_push(self.templates@, done0, order0, t);
                    }
                },
                None => {
                    proof {
                        lemma_stalled_has_blocked_set(self.templates@, done@);
                        let rem = choose|rem: Set<int>| blocked_set(self.templates@, rem);
                        if acyclic(self.templates@) {
                            let witness = choose|order: Seq<usize>|
                                complete_order(self.templates@, order);
                            lemma_blocked_set_refutes_order(self.templates@, rem, witness);
                            assert(false);
                        }
                    }
                    return Err(DefinitionError::RecursiveTemplateGraph);
                },
            }
        }
        proof {
            assert(complete_order(self.templates@, order@));
        }
        Ok(order)
    }

    /// Validate the task graph of every DAG template: task names unique,
    /// every dependency declared. `MalformedTaskGraph` exactly when one
    /// template breaks this.
    pub fn validate_task_graphs(&self) -> (r: Result<(), DefinitionError>)
        ensures
            r is Ok <==> forall|i: int|
                0 <= i < self.templates@.len() ==> tasks_valid(#[trigger] self.templates@[i]),
            r is Err ==> r == Err::<(), DefinitionError>(DefinitionError::MalformedTaskGraph),
    {
        let mut i: usize = 0;
        while i < self.templates.len()
            invariant
                i <= self.templates@.len(),
                forall|j: int| 0 <= j < i ==> tasks_valid(#[trigger] self.templates@[j]),
            decreases self.templates@.len() - i,
        {
            let ok = match &self.templates[i].kind {
                TemplateKind::Dag(d) => check_dag_tasks(d),
                _ => true,
            };
            if !ok {
                proof {
                    assert(!tasks_valid(self.templates@[i as int]));
                }
                return Err(DefinitionError::MalformedTaskGraph);
            }
            i = i + 1;
        }
        Ok(())
    }
}

/// Are the task names of `d` unique and all its dependencies declared?
fn check_dag_tasks(d: &crate::template::DagTemplate) -> (r: bool)
    ensures
        r == dag_tasks_valid(*d),
{
    let tasks = &d.tasks;
    let mut i: usize = 0;
    while i < tasks.len()
        invariant
            tasks == &d.tasks,
            i <= tasks@.len(),
            forall|a: int, b: int| 0 <= a < b < tasks@.len() && a < i ==> tasks@[a].name@
                != tasks@[b].name@,
        decreases tasks@.len() - i,
    {
        let mut j: usize = i + 1;
        while j < tasks.len()
            invariant
                tasks == &d.tasks,
                i < j,
                i < tasks@.len(),
                j <= tasks@.len(),
                forall|b: int| i < b < j ==> tasks@[i as int].name@ != tasks@[b].name@,
            decreases tasks@.len() - j,
        {
            if tasks[i].name.eq(&tasks[j].name) {
                assert(tasks@[i as int].name@ == tasks@[j as int].name@);
                return false;
            }
            j = j + 1;
        }
        i = i + 1;
    }
    let mut i2: usize = 0;
    while i2 < tasks.len()
        invariant
            tasks == &d.tasks,
            i2 <= tasks@.len(),
            forall|a: int, b: int|
                0 <= a < b < tasks@.len() ==> tasks@[a].name@ != tasks@[b].name@,
            forall|a: int, k: int|
                0 <= a < i2 && 0 <= k < tasks@[a].depends@.len() ==> crate::dag::task_index(
                    tasks@,
                    (#[trigger] tasks@[a].depends@[k])@,
                ) is Some,
        decreases tasks@.len() - i2,
    {
        let deps = &tasks[i2].depends;
        let mut k: usize = 0;
        while k < deps.len()
            invariant
                tasks == &d.tasks,
                i2 < tasks@.len(),
                deps == &tasks@[i2 as int].depends,
                k <= deps@.len(),
                forall|b: int|
                    0 <= b < k ==> crate::dag::task_index(
                        tasks@,
                        (#[trigger] tasks@[i2 as int].depends@[b])@,
                    ) is Some,
            decreases deps@.len() - k,
        {
            match crate::dag::find_task_index(tasks, &deps[k]) {
                Some(_) => {},
                None => {
                    assert(crate::dag::task_index(
                        tasks@,
                        tasks@[i2 as int].depends@[k as int]@,
                    ) is None);
                    return false;
                },
            }
            k = k + 1;
        }
        i2 = i2 + 1;
    }
    true
}

/// Every index below the length of a duplicate-free, in-range sequence
/// appears in it.
proof fn lemma_distinct_covers(order: Seq<usize>, t: int)
    requires
        forall|p: int| 0 <= p < order.len() ==> (#[trigger] order[p]) < order.len(),
        forall|p: int, q: int| 0 <= p < q < order.len() ==> order[p] != order[q],
        0 <= t < order.len(),
    ensures
        exists|p: int| 0 <= p < order.len() && order[p] as int == t,
{
    let n = order.len() as int;
    let iseq = Seq::new(order.len(), |p: int| order[p] as int);
    assert(iseq.no_duplicates()) by {
        assert forall|p: int, q: int|
            0 <= p < iseq.len() && 0 <= q < iseq.len() && p != q implies iseq[p] != iseq[q] by {
            if p < q {
                assert(order[p] != order[q]);
            } else {
                assert(order[q] != order[p]);
            }
        }
    }
    iseq.unique_seq_to_set();
    let image = iseq.to_set();
    let range = vstd::set_lib::set_int_range(0, n);
    vstd::set_lib::lemma_int_range(0, n);
    assert(image.subset_of(range)) by {
        assert forall|x: int| image.contains(x) implies range.contains(x) by {
            assert(iseq.contains(x));
            let p = choose|p: int| 0 <= p < iseq.len() && iseq[p] == x;
            assert(order[p] < order.len());
        }
    }
    if !(exists|p: int| 0 <= p < order.len() && order[p] as int == t) {
        assert(!image.contains(t)) by {
            if image.contains(t) {
                assert(iseq.contains(t));
                let p = choose|p: int| 0 <= p < iseq.len() && iseq[p] == t;
                assert(order[p] as int == t);
            }
        }
        image.lemma_subset_not_in_lt(range, t);
        assert(false);
    }
}

/// Among the positions of `order` whose task lies in `rem`, there is an
/// earliest one.
proof fn lemma_least_rem_position(rem: Set<int>, order: Seq<usize>, p: int)
    requires
        0 <= p < order.len(),
        rem.contains(order[p] as int),
    ensures
        exists|p0: int|
            0 <= p0 < order.len() && rem.contains(#[trigger] order[p0] as int) && forall|q: int|
                0 <= q < p0 ==> !rem.contains(#[trigger] order[q] as int),
    decreases p,
{
    if exists|q: int| 0 <= q < p && rem.contains(#[trigger] order[q] as int) {
        let q = choose|q: int| 0 <= q < p && rem.contains(#[trigger] order[q] as int);
        lemma_least_rem_position(rem, order, q);
    } else {
        assert(rem.contains(order[p] as int));
    }
}

/// A blocked set refutes every complete order: take its earliest ordered
/// member — the member it references would have to sit earlier still.
proof fn lemma_blocked_set_refutes_order(ts: Seq<Template>, rem: Set<int>, order: Seq<usize>)
    requires
        blocked_set(ts, rem),
    ensures
        !complete_order(ts, order),
{
    if complete_order(ts, order) {
        assert(exists|t: int| rem.contains(t)) by {
            if !(exists|t: int| rem.contains(t)) {
                assert(rem =~= Set::<int>::empty());
            }
        }
        let t0 = choose|t: int| rem.contains(t);
        lemma_distinct_covers(order, t0);
        let p_any = choose|p: int| 0 <= p < order.len() && order[p] as int == t0;
        lemma_least_rem_position(rem, order, p_any);
        let p0 = choose|p0: int|
            0 <= p0 < order.len() && rem.contains(#[trigger] order[p0] as int) && forall|q: int|
                0 <= q < p0 ==> !rem.contains(#[trigger] order[q] as int);
        let t = order[p0] as int;
        let name = choose|name: Seq<char>|
            references(ts[t], name) && (tmpl_index(ts, name) matches Some(j) && rem.contains(j));
        assert(references(ts[order[p0] as int], name));
        match tmpl_index(ts, name) {
            Some(j) => {
                let q = choose|q: int| 0 <= q < p0 && order[q] == j;
                assert(rem.contains(order[q] as int));
            },
            None => {},
        }
        assert(false);
    }
}

/// When no unordered template is processable and some template is still
/// unordered, the unordered templates form a blocked set: the graph has
/// a cycle.
proof fn lemma_stalled_has_blocked_set(ts: Seq<Template>, done: Seq<bool>)
    requires
        done.len() == ts.len(),
        count_true(done) < ts.len(),
        forall|i: int|
            0 <= i < ts.len() ==> (#[trigger] done[i]) || !spec_processable(ts, done, i),
    ensures
        exists|rem: Set<int>| blocked_set(ts, rem),
{
    let n = ts.len() as int;
    let rem = Set::new(|t: int| 0 <= t < n && !done[t]);
    assert(rem.subset_of(vstd::set_lib::set_int_range(0, n)));
    vstd::set_lib::lemma_int_range(0, n);
    vstd::set_lib::lemma_len_subset(rem, vstd::set_lib::set_int_range(0, n));
    if forall|t: int| 0 <= t < n ==> #[trigger] done[t] {
        lemma_count_true_all(done);
        assert(false);
    }
    let w = choose|t: int| 0 <= t < n && !done[t];
    assert(rem.contains(w));
    if rem.len() == 0 {
        rem.lemma_len0_is_empty();
        assert(!rem.contains(w));
    }
    assert forall|t: int| rem.contains(t) implies 0 <= t < ts.len() && exists|name: Seq<char>|
        references(ts[t], name) && (tmpl_index(ts, name) matches Some(j) && rem.contains(j)) by {
        assert(!done[t]);
        assert(!spec_processable(ts, done, t));
        lemma_unprocessable_blocked(ts, done, t);
        let name = choose|name: Seq<char>|
            references(ts[t], name) && (tmpl_index(ts, name) matches Some(j) && !done[j]);
        match tmpl_index(ts, name) {
            Some(j) => {
                lemma_tmpl_index_char(ts, name);
                assert(rem.contains(j));
            },
            None => {},
        }
    }
    assert(blocked_set(ts, rem));
}

proof fn lemma_count_all_false(s: Seq<bool>)
    requires
        forall|i: int| 0 <= i < s.len() ==> !(#[trigger] s[i]),
    ensures
        count_true(s) == 0,
    decreases s.len(),
{
    if s.len() > 0 {
        lemma_count_all_false(s.drop_last());
    }
}

/// Appending a processable, unordered template keeps the order a
/// witness: bounds, distinctness, the membership bookkeeping and
/// `ordered_refs` all carry over.
proof fn lemma_order_push(ts: Seq<Template>, done0: Seq<bool>, order0: Seq<usize>, t: usize)
    requires
        done0.len() == ts.len(),
        (t as int) < ts.len(),
        !done0[t as int],
        spec_processable(ts, done0, t as int),
        forall|u: int|
            0 <= u < ts.len() ==> ((#[trigger] done0[u]) <==> exists|q: int|
                0 <= q < order0.len() && order0[q] == u),
        forall|p: int| 0 <= p < order0.len() ==> (#[trigger] order0[p]) < ts.len(),
        forall|p: int, q: int| 0 <= p < q < order0.len() ==> order0[p] != order0[q],
        ordered_refs(ts, order0),
    ensures
        forall|u: int|
            0 <= u < ts.len() ==> ((#[trigger] done0.update(t as int, true)[u]) <==> exists|q: int|
                0 <= q < order0.push(t).len() && order0.push(t)[q] == u),
        forall|p: int| 0 <= p < order0.push(t).len() ==> (#[trigger] order0.push(t)[p]) < ts.len(),
        forall|p: int, q: int|
            0 <= p < q < order0.push(t).len() ==> order0.push(t)[p] != order0.push(t)[q],
        ordered_refs(ts, order0.push(t)),
{
    let order1 = order0.push(t);
    let done1 = done0.update(t as int, true);
    assert forall|u: int|
        0 <= u < ts.len() implies ((#[trigger] done1[u]) <==> exists|q: int|
            0 <= q < order1.len() && order1[q] == u) by {
        if u == t as int {
            assert(order1[order1.len() - 1] == t);
        } else {
            assert(done1[u] == done0[u]);
            if done0[u] {
                let q = choose|q: int| 0 <= q < order0.len() && order0[q] == u;
                assert(order1[q] == u);
            } else {
                if exists|q: int| 0 <= q < order1.len() && order1[q] == u {
                    let q = choose|q: int| 0 <= q < order1.len() && order1[q] == u;
                    assert(q < order0.len());
                    assert(order0[q] == u);
                }
            }
        }
    }
    assert forall|p: int, q: int|
        0 <= p < q < order1.len() implies order1[p] != order1[q] by {
        if q == order1.len() - 1 {
            assert(order1[p] == order0[p]);
            if order0[p] == t {
                assert(done0[t as int]);
            }
        }
    }
    assert forall|p: int, name: Seq<char>|
        0 <= p < order1.len() && references(
            ts[order1[p] as int],
            name,
        ) implies (tmpl_index(ts, name) matches Some(j) ==> exists|q: int|
        0 <= q < p && order1[q] == j) by {
        if p < order0.len() {
            assert(order1[p] == order0[p]);
            assert(references(ts[order0[p] as int], name));
            match tmpl_index(ts, name) {
                Some(j) => {
                    let q = choose|q: int| 0 <= q < p && order0[q] == j;
                    assert(order1[q] == j);
                },
                None => {},
            }
        } else {
            assert(order1[p] == t);
            assert(references(ts[t as int], name));
            match tmpl_index(ts, name) {
                Some(j) => {
                    lemma_references_processable(ts, done0, t as int, name);
                    lemma_tmpl_index_char(ts, name);
                    assert(done0[j]);
                    let q = choose|q: int| 0 <= q < order0.len() && order0[q] == j;
                    assert(order1[q] == j);
                },
                None => {},
            }
        }
    }
}

/// A processable template's references are all ordered.
proof fn lemma_references_processable(ts: Seq<Template>, done: Seq<bool>, t: int, name: Seq<char>)
    requires
        0 <= t < ts.len(),
        spec_processable(ts, done, t),
        references(ts[t], name),
    ensures
        ref_done(ts, done, name),
{
    match ts[t].kind {
        TemplateKind::Dag(d) => {
            let a = choose|a: int| 0 <= a < d.tasks@.len() && d.tasks@[a].template@ == name;
            assert(ref_done(ts, done, d.tasks@[a].template@));
        },
        TemplateKind::Steps(s) => {
            let (a, b) = choose|a: int, b: int|
                0 <= a < s.stages@.len() && 0 <= b < s.stages@[a]@.len()
                    && s.stages@[a]@[b].template@ == name;
            assert(ref_done(ts, done, s.stages@[a]@[b].template@));
        },
        _ => {},
    }
}

/// An unordered template that cannot be ordered references an unordered
/// template.
proof fn lemma_unprocessable_blocked(ts: Seq<Template>, done: Seq<bool>, t: int)
    requires
        0 <= t < ts.len(),
        !spec_processable(ts, done, t),
    ensures
        exists|name: Seq<char>|
            references(ts[t], name) && (tmpl_index(ts, name) matches Some(j) && !done[j]),
{
    match ts[t].kind {
        TemplateKind::Dag(d) => {
            let a = choose|a: int|
                0 <= a < d.tasks@.len() && !ref_done(ts, done, (#[trigger] d.tasks@[a]).template@);
            let name = d.tasks@[a].template@;
            assert(references(ts[t], name));
            assert(tmpl_index(ts, name) matches Some(j) && !done[j]);
        },
        TemplateKind::Steps(s) => {
            let (a, b) = choose|a: int, b: int|
                0 <= a < s.stages@.len() && 0 <= b < s.stages@[a]@.len() && !ref_done(
                    ts,
                    done,
                    (#[trigger] s.stages@[a]@[b]).template@,
                );
            let name = s.stages@[a]@[b].template@;
            assert(references(ts[t], name));
            assert(tmpl_index(ts, name) matches Some(j) && !done[j]);
        },
        _ => {},
    }
}

} // verus!
