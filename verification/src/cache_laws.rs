//! What holds of the threads that are bound.

use vstd::prelude::*;

use crate::cache;
use crate::cache::DecisionView;
use crate::cache::ProcCache;
use crate::cache::TaskDecision;
use crate::cache::TaskEntry;
use crate::cache::TaskView;
use crate::rule_match;
use crate::rule_match::AffinityView;

verus! {

/// A thread keeps its binding only if a thread rule bound it and the new result is not by a
/// thread rule. In every other case with a result the decision is to apply that very
/// result; without one nothing is done.
pub proof fn law_decision(
    tasks: Map<i32, TaskView>,
    tid: i32,
    result: Option<AffinityView>,
)
    ensures
        ({
            let d = cache::decided(tasks, tid, result);
            let guarded = tasks.contains_key(tid) && tasks[tid].affinity.is_thread_rule;
            &&& result is None <==> d == DecisionView::NoRule
            &&& d == DecisionView::Keep <==> result is Some && guarded && !result->0.is_thread_rule
            &&& result is Some && (result->0.is_thread_rule || !guarded) ==> d
                == DecisionView::Apply(result->0)
        }),
{
}

/// After a decision was carried out, a thread for which a result was to be applied is bound
/// to that result, with its process and package, or is not among the bound threads if it is
/// gone. In every other case the bound threads stay as they are.
pub proof fn law_decision_carried_out(
    tasks: Map<i32, TaskView>,
    tid: i32,
    pid: i32,
    pkg: Seq<char>,
    result: Option<AffinityView>,
    dead: bool,
    other: i32,
)
    ensures
        ({
            let d = cache::decided(tasks, tid, result);
            let after = cache::tasks_after(tasks, tid, pid, pkg, d, dead);
            let bound = cache::is_bound_after(d, dead);
            let guarded = tasks.contains_key(tid) && tasks[tid].affinity.is_thread_rule;
            &&& result is None ==> after == tasks && !bound
            &&& result is Some && guarded && !result->0.is_thread_rule ==> after == tasks && bound
            &&& result is Some && (result->0.is_thread_rule || !guarded) && !dead ==> {
                &&& bound
                &&& after.contains_key(tid)
                &&& after[tid].affinity == result->0
                &&& after[tid].pid == pid
                &&& after[tid].pkg == pkg
            }
            &&& result is Some && (result->0.is_thread_rule || !guarded) && dead ==> !bound
                && !after.contains_key(tid)
            &&& other != tid ==> after.contains_key(other) == tasks.contains_key(other)
            &&& other != tid && tasks.contains_key(other) ==> after[other] == tasks[other]
        }),
{
}

/// A task's name counts for its rules only if its package has thread rules.
pub proof fn law_name_that_counts(comm: Seq<char>)
    ensures
        cache::matched_name(comm, true) == comm,
        cache::matched_name(comm, false).len() == 0,
{
}

/// The package of a task is the one that its name stands for, and, if it stands for none,
/// that of the bound thread with the number of its process.
pub proof fn law_package_of_task(
    tasks: Map<i32, TaskView>,
    pid: i32,
    comm: Seq<char>,
    pkgs: Seq<Seq<char>>,
)
    ensures
        ({
            let named = rule_match::spec_comm_to_pkg(comm, pkgs);
            let found = cache::looked_up(tasks, pid, comm, pkgs);
            &&& named is Some ==> found == named
            &&& named is None && tasks.contains_key(pid) ==> found == Some(tasks[pid].pkg)
            &&& named is None && !tasks.contains_key(pid) ==> found is None
        }),
{
}

/// The threads that are gone are those for which binding showed it, in the same order.
pub proof fn law_gone_threads(bound: Seq<(i32, bool)>, tid: i32)
    ensures
        cache::gone_threads(Seq::empty()).len() == 0,
        cache::gone_threads(bound.push((tid, true))) == cache::gone_threads(bound).push(tid),
        cache::gone_threads(bound.push((tid, false))) == cache::gone_threads(bound),
{
    assert(bound.push((tid, true)).drop_last() =~= bound);
    assert(bound.push((tid, false)).drop_last() =~= bound);
}

/// A bound thread is described by all that is held of it.
pub proof fn law_description_of_task(e: TaskEntry)
    ensures
        e@.pid == e.pid,
        e@.pkg == e.pkg@,
        e@.affinity.cpus == e.cpus@,
        e@.affinity.cpuset_dir == e.cpuset_dir@,
        e@.affinity.is_thread_rule == e.is_thread_rule,
{
}

/// A decision is described by itself, with the result that is to be applied.
pub proof fn law_description_of_decision(d: TaskDecision)
    ensures
        d is NoRule <==> d@ == DecisionView::NoRule,
        d is Keep <==> d@ == DecisionView::Keep,
        d matches TaskDecision::Apply(r) ==> d@ == DecisionView::Apply(r@),
{
}

/// The bound threads are described by the entries that are held of them, by thread id.
pub proof fn law_description_of_cache(c: ProcCache, tid: i32)
    ensures
        c@.contains_key(tid) == c.tasks@.contains_key(tid),
        c.tasks@.contains_key(tid) ==> c@[tid] == c.tasks@[tid]@,
{
}

} // verus!
