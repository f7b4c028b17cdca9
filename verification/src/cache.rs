//! The threads that are bound, and how a thread comes to be one of them.

use std::collections::HashMap;

use vstd::prelude::*;

use crate::config::AppConfig;
use crate::cpuset::CpuSet;
use crate::rule_match;
use crate::rule_match::AffinityPlan;
use crate::rule_match::AffinityResult;
use crate::rule_match::AffinityView;
use crate::text;

verus! {

broadcast use vstd::std_specs::hash::group_hash_axioms;

/// A thread that is bound.
pub struct TaskEntry {
    pub pid: i32,
    pub pkg: String,
    pub cpus: CpuSet,
    pub cpuset_dir: String,
    pub is_thread_rule: bool,
}

/// A thread that is bound, for contracts.
#[verifier::ext_equal]
pub struct TaskView {
    pub pid: i32,
    pub pkg: Seq<char>,
    pub affinity: AffinityView,
}

impl View for TaskEntry {
    type V = TaskView;

    open spec fn view(&self) -> TaskView {
        TaskView {
            pid: self.pid,
            pkg: self.pkg@,
            affinity: AffinityView {
                cpus: self.cpus@,
                cpuset_dir: self.cpuset_dir@,
                is_thread_rule: self.is_thread_rule,
            },
        }
    }
}

/// The threads that are bound, by thread id.
pub struct ProcCache {
    pub tasks: HashMap<i32, TaskEntry>,
}

impl View for ProcCache {
    type V = Map<i32, TaskView>;

    open spec fn view(&self) -> Map<i32, TaskView> {
        self.tasks@.map_values(|e: TaskEntry| e@)
    }
}

/// What is to be done about a thread.
pub enum TaskDecision {
    /// No rule is for it.
    NoRule,
    /// It stays bound as it is.
    Keep,
    /// It is to be bound.
    Apply(AffinityResult),
}

/// What is to be done about a thread, for contracts.
#[verifier::ext_equal]
pub enum DecisionView {
    NoRule,
    Keep,
    Apply(AffinityView),
}

impl View for TaskDecision {
    type V = DecisionView;

    open spec fn view(&self) -> DecisionView {
        match self {
            TaskDecision::NoRule => DecisionView::NoRule,
            TaskDecision::Keep => DecisionView::Keep,
            TaskDecision::Apply(r) => DecisionView::Apply(r@),
        }
    }
}

/// What is to be done about a thread, given what it is to be bound to. A thread
/// that a thread rule bound is not bound anew by anything less.
pub open spec fn decided(
    tasks: Map<i32, TaskView>,
    tid: i32,
    result: Option<AffinityView>,
) -> DecisionView {
    match result {
        None => DecisionView::NoRule,
        Some(r) => if !r.is_thread_rule && tasks.contains_key(tid)
            && tasks[tid].affinity.is_thread_rule {
            DecisionView::Keep
        } else {
            DecisionView::Apply(r)
        },
    }
}

/// The bound threads after a decision was carried out. `dead` is whether the thread
/// turned out to be gone.
pub open spec fn tasks_after(
    tasks: Map<i32, TaskView>,
    tid: i32,
    pid: i32,
    pkg: Seq<char>,
    decision: DecisionView,
    dead: bool,
) -> Map<i32, TaskView> {
    match decision {
        DecisionView::Apply(r) => if dead {
            tasks.remove(tid)
        } else {
            tasks.insert(tid, TaskView { pid, pkg, affinity: r })
        },
        _ => tasks,
    }
}

/// Whether a thread is bound after a decision was carried out.
pub open spec fn is_bound_after(decision: DecisionView, dead: bool) -> bool {
    match decision {
        DecisionView::NoRule => false,
        DecisionView::Keep => true,
        DecisionView::Apply(_) => !dead,
    }
}

/// The thread name that rules are matched with: none unless the package has thread
/// rules.
pub open spec fn matched_name(comm: Seq<char>, has_thread_rules: bool) -> Seq<char> {
    if has_thread_rules {
        comm
    } else {
        Seq::empty()
    }
}

/// Finds what the rules say of a task. `has_thread_rules` is whether its package
/// has thread rules.
pub fn task_plan(pkg: &str, comm: &str, has_thread_rules: bool, cfg: &AppConfig) -> (r:
    AffinityPlan)
    ensures
        r@ == rule_match::planned(cfg.rules@, pkg@, matched_name(comm@, has_thread_rules)),
{
    if has_thread_rules {
        rule_match::plan_affinity(pkg, comm, cfg)
    } else {
        let none = String::new();
        rule_match::plan_affinity(pkg, none.as_str(), cfg)
    }
}

impl ProcCache {
    /// No thread is bound yet.
    pub fn new() -> (r: Self)
        ensures
            r@ == Map::<i32, TaskView>::empty(),
    {
        let r = ProcCache { tasks: HashMap::new() };
        assert(r@ =~= Map::<i32, TaskView>::empty());
        r
    }

    /// Forgets all threads.
    pub fn clear(&mut self)
        ensures
            final(self)@ == Map::<i32, TaskView>::empty(),
    {
        self.tasks.clear();
        assert(self@ =~= Map::<i32, TaskView>::empty());
    }

    /// Forgets a thread.
    pub fn task_del(&mut self, tid: i32)
        ensures
            final(self)@ == old(self)@.remove(tid),
    {
        self.tasks.remove(&tid);
        assert(self@ =~= old(self)@.remove(tid));
    }

    /// Finds the package of a task by its kernel name, or else by the main thread of
    /// its process, and whether that package has thread rules.
    pub fn pkg_lookup_comm(&self, pid: i32, comm: &str, cfg: &AppConfig) -> (r: Option<
        (String, bool),
    >)
        ensures
            match r {
                Some((pkg, threads)) => {
                    &&& Some(pkg@) == looked_up(self@, pid, comm@, text::texts(cfg.pkgs@))
                    &&& threads == text::texts(cfg.has_thread_rules@).contains(pkg@)
                },
                None => looked_up(self@, pid, comm@, text::texts(cfg.pkgs@)) is None,
            },
    {
        let pkg = match rule_match::comm_to_pkg(comm, cfg) {
            Some(p) => p,
            None => match self.tasks.get(&pid) {
                Some(e) => e.pkg.clone(),
                None => {
                    return None;
                },
            },
        };
        let threads = text::list_contains(&cfg.has_thread_rules, pkg.as_str());
        Some((pkg, threads))
    }

    /// Decides what is to be done about a thread, given what it is to be bound to.
    pub fn task_decide(&self, tid: i32, result: Option<AffinityResult>) -> (r: TaskDecision)
        ensures
            r@ == decided(self@, tid, rule_match::affinity_of(result)),
    {
        match result {
            None => TaskDecision::NoRule,
            Some(a) => {
                let bound_by_thread_rule: bool = match self.tasks.get(&tid) {
                    Some(e) => e.is_thread_rule,
                    None => false,
                };
                if !a.is_thread_rule && bound_by_thread_rule {
                    TaskDecision::Keep
                } else {
                    TaskDecision::Apply(a)
                }
            },
        }
    }

    /// Carries a decision over to the bound threads, and tells whether the thread is
    /// bound. `dead` is whether binding it showed that the thread is gone; it has no
    /// influence if the thread was not to be bound.
    pub fn task_apply(
        &mut self,
        tid: i32,
        pid: i32,
        pkg: &str,
        decision: TaskDecision,
        dead: bool,
    ) -> (r: bool)
        ensures
            final(self)@ == tasks_after(old(self)@, tid, pid, pkg@, decision@, dead),
            r == is_bound_after(decision@, dead),
    {
        match decision {
            TaskDecision::NoRule => false,
            TaskDecision::Keep => true,
            TaskDecision::Apply(a) => {
                if dead {
                    self.task_del(tid);
                    return false;
                }
                let ghost view = TaskView { pid, pkg: pkg@, affinity: a@ };
                let entry = TaskEntry {
                    pid,
                    pkg: pkg.to_owned(),
                    cpus: a.cpus,
                    cpuset_dir: a.cpuset_dir,
                    is_thread_rule: a.is_thread_rule,
                };
                assert(entry@ =~= view);
                self.tasks.insert(tid, entry);
                assert(self@ =~= old(self)@.insert(tid, view));
                true
            },
        }
    }

    /// Lists the bound threads, each once, in no particular order.
    pub fn bound_threads(&self) -> (r: Vec<i32>)
        ensures
            r@.no_duplicates(),
            r@.to_set() == self@.dom(),
    {
        let mut tids: Vec<i32> = Vec::new();
        for tid in it: self.tasks.keys()
            invariant
                it.seq() == vstd::std_specs::iter::IteratorSpec::remaining(&self.tasks.keys()),
                tids@ == it.seq().unref().take(it.index() as int),
        {
            tids.push(*tid);
            assert(tids@ =~= it.seq().unref().take(it.index() + 1));
        }
        assert(tids@ =~= vstd::std_specs::iter::IteratorSpec::remaining(
            &self.tasks.keys(),
        ).unref());
        assert(self@.dom() =~= self.tasks@.dom());
        tids
    }

    /// Forgets the threads that turned out to be gone, and lists them. `bound` holds,
    /// for each thread that was bound once more, whether that showed it to be gone.
    pub fn affinity_sync(&mut self, bound: &Vec<(i32, bool)>) -> (r: Vec<i32>)
        ensures
            r@ == gone_threads(bound@),
            final(self)@ == old(self)@.remove_keys(r@.to_set()),
    {
        let mut gone: Vec<i32> = Vec::new();
        let mut i: usize = 0;
        assert(bound@.take(0) =~= Seq::<(i32, bool)>::empty());
        assert(self@ =~= old(self)@.remove_keys(gone@.to_set()));
        while i < bound.len()
            invariant
                i <= bound@.len(),
                gone@ == gone_threads(bound@.take(i as int)),
                self@ == old(self)@.remove_keys(gone@.to_set()),
            decreases bound.len() - i,
        {
            let tid: i32 = bound[i].0;
            let dead: bool = bound[i].1;
            proof {
                assert(bound@.take(i + 1).drop_last() =~= bound@.take(i as int));
                assert(bound@.take(i + 1).last() == bound@[i as int]);
            }
            if dead {
                self.task_del(tid);
                proof {
                    lemma_push_to_set(gone@, tid);
                    assert(self@ =~= old(self)@.remove_keys(gone@.to_set().insert(tid)));
                }
                gone.push(tid);
            }
            i = i + 1;
        }
        assert(bound@.take(i as int) =~= bound@);
        gone
    }
}

proof fn lemma_push_to_set(s: Seq<i32>, x: i32)
    ensures
        s.push(x).to_set() == s.to_set().insert(x),
{
    let more = s.push(x);
    assert forall|t: i32| more.to_set().contains(t) == s.to_set().insert(x).contains(t) by {
        if s.contains(t) {
            let k = choose|k: int| 0 <= k < s.len() && s[k] == t;
            assert(more[k] == t);
        }
        if t == x {
            assert(more[s.len() as int] == t);
        }
        if more.contains(t) && t != x {
            let k = choose|k: int| 0 <= k < more.len() && more[k] == t;
            assert(s[k] == t);
        }
    }
    assert(more.to_set() =~= s.to_set().insert(x));
}

/// The threads that turned out to be gone, in order.
pub open spec fn gone_threads(bound: Seq<(i32, bool)>) -> Seq<i32>
    decreases bound.len(),
{
    if bound.len() == 0 {
        Seq::empty()
    } else {
        let rest = gone_threads(bound.drop_last());
        if bound.last().1 {
            rest.push(bound.last().0)
        } else {
            rest
        }
    }
}

/// The package of a task: the one for which its kernel name stands, or else that of
/// the main thread of its process.
pub open spec fn looked_up(
    tasks: Map<i32, TaskView>,
    pid: i32,
    comm: Seq<char>,
    pkgs: Seq<Seq<char>>,
) -> Option<Seq<char>> {
    match rule_match::spec_comm_to_pkg(comm, pkgs) {
        Some(p) => Some(p),
        None => if tasks.contains_key(pid) {
            Some(tasks[pid].pkg)
        } else {
            None
        },
    }
}

/// A thread that a thread rule bound is not bound to anything less: what is not by
/// a thread rule leaves it as it is.
pub proof fn law_thread_binding_is_kept(
    tasks: Map<i32, TaskView>,
    tid: i32,
    pid: i32,
    pkg: Seq<char>,
    result: AffinityView,
    dead: bool,
)
    requires
        tasks.contains_key(tid),
        tasks[tid].affinity.is_thread_rule,
        !result.is_thread_rule,
    ensures
        ({
            let d = decided(tasks, tid, Some(result));
            tasks_after(tasks, tid, pid, pkg, d, dead) == tasks && is_bound_after(d, dead)
        }),
{
}

/// A decision about one thread leaves every other thread as it is.
pub proof fn law_other_threads_stay(
    tasks: Map<i32, TaskView>,
    tid: i32,
    pid: i32,
    pkg: Seq<char>,
    decision: DecisionView,
    dead: bool,
    other: i32,
)
    requires
        other != tid,
    ensures
        ({
            let after = tasks_after(tasks, tid, pid, pkg, decision, dead);
            &&& after.contains_key(other) == tasks.contains_key(other)
            &&& tasks.contains_key(other) ==> after[other] == tasks[other]
        }),
{
}

/// A thread that is reported as bound anew is among the bound threads with what it
/// was bound to, and one that is gone is not among them.
pub proof fn law_binding_is_recorded(
    tasks: Map<i32, TaskView>,
    tid: i32,
    pid: i32,
    pkg: Seq<char>,
    result: AffinityView,
)
    ensures
        ({
            let after = tasks_after(tasks, tid, pid, pkg, DecisionView::Apply(result), false);
            after.contains_key(tid) && after[tid] == (TaskView { pid, pkg, affinity: result })
        }),
        !tasks_after(tasks, tid, pid, pkg, DecisionView::Apply(result), true).contains_key(tid),
{
}

} // verus!
