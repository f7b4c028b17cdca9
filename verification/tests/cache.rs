use threadopt::cache::{task_plan, ProcCache, TaskDecision};
use threadopt::config::{load_config, AppConfig};
use threadopt::cpuset::{parse_cpu_ranges, CpuSet, CpuTopology};
use threadopt::rule_match::{settle_affinity, AffinityResult};

fn cfg(content: &str) -> AppConfig {
    let topo = CpuTopology {
        present_cpus: parse_cpu_ranges("0-7", None),
        present_str: "0-7".to_string(),
        mems_str: "0".to_string(),
        cpuset_enabled: false,
        e_core: CpuSet::new(),
        p_core: CpuSet::new(),
        hp_core: CpuSet::new(),
    };
    let mut mtime: i64 = -1;
    load_config("f", &topo, &mut mtime, Some(1), Some(content))
        .unwrap()
        .config
}

fn result(cpus: &str, is_thread_rule: bool) -> Option<AffinityResult> {
    Some(AffinityResult {
        cpus: parse_cpu_ranges(cpus, None),
        cpuset_dir: String::new(),
        is_thread_rule,
    })
}

fn apply(cache: &mut ProcCache, tid: i32, r: Option<AffinityResult>, dead: bool) -> bool {
    let decision = cache.task_decide(tid, r);
    cache.task_apply(tid, 1, "p", decision, dead)
}

#[test]
fn binding_is_recorded() {
    let mut cache = ProcCache::new();
    assert!(cache.tasks.is_empty());
    let decision = cache.task_decide(10, result("4-5", true));
    assert!(matches!(decision, TaskDecision::Apply(_)));
    assert!(cache.task_apply(10, 9, "p", decision, false));
    let e = cache.tasks.get(&10).unwrap();
    assert_eq!(e.pid, 9);
    assert_eq!(e.pkg, "p");
    assert_eq!(e.cpus.to_range_string(), "4-5");
    assert_eq!(e.cpuset_dir, "");
    assert!(e.is_thread_rule);
}

#[test]
fn no_rule_binds_nothing() {
    let mut cache = ProcCache::new();
    assert!(matches!(cache.task_decide(10, None), TaskDecision::NoRule));
    assert!(!apply(&mut cache, 10, None, false));
    assert!(cache.tasks.is_empty());
    // A thread that was bound before stays in the list.
    assert!(apply(&mut cache, 10, result("1", false), false));
    assert!(!apply(&mut cache, 10, None, false));
    assert_eq!(cache.tasks.len(), 1);
}

#[test]
fn thread_binding_is_kept() {
    let mut cache = ProcCache::new();
    assert!(apply(&mut cache, 10, result("4", true), false));
    assert!(matches!(
        cache.task_decide(10, result("1", false)),
        TaskDecision::Keep
    ));
    assert!(apply(&mut cache, 10, result("1", false), true));
    assert_eq!(cache.tasks[&10].cpus.to_range_string(), "4");
    // Another thread rule replaces it.
    assert!(apply(&mut cache, 10, result("6", true), false));
    assert_eq!(cache.tasks[&10].cpus.to_range_string(), "6");
}

#[test]
fn package_binding_can_be_replaced() {
    let mut cache = ProcCache::new();
    assert!(apply(&mut cache, 10, result("1", false), false));
    assert!(apply(&mut cache, 10, result("2", false), false));
    assert_eq!(cache.tasks[&10].cpus.to_range_string(), "2");
    assert!(apply(&mut cache, 10, result("3", true), false));
    assert!(cache.tasks[&10].is_thread_rule);
}

#[test]
fn dead_thread_is_forgotten() {
    let mut cache = ProcCache::new();
    assert!(apply(&mut cache, 10, result("1", false), false));
    assert!(apply(&mut cache, 11, result("1", false), false));
    assert!(!apply(&mut cache, 10, result("2", true), true));
    assert!(cache.tasks.get(&10).is_none());
    assert!(cache.tasks.get(&11).is_some());
}

#[test]
fn other_threads_stay() {
    let mut cache = ProcCache::new();
    assert!(apply(&mut cache, 11, result("3", true), false));
    assert!(apply(&mut cache, 10, result("1", false), false));
    assert_eq!(cache.tasks[&11].cpus.to_range_string(), "3");
    assert_eq!(cache.tasks.len(), 2);
}

#[test]
fn threads_are_deleted_and_cleared() {
    let mut cache = ProcCache::new();
    for tid in 1..4 {
        assert!(apply(&mut cache, tid, result("1", false), false));
    }
    cache.task_del(2);
    cache.task_del(99);
    assert_eq!(cache.tasks.len(), 2);
    cache.clear();
    assert!(cache.tasks.is_empty());
}

#[test]
fn sync_forgets_the_dead() {
    let mut cache = ProcCache::new();
    for tid in 1..6 {
        assert!(apply(&mut cache, tid, result("1", false), false));
    }
    let mut tids = cache.bound_threads();
    tids.sort();
    assert_eq!(tids, vec![1, 2, 3, 4, 5]);
    let outcome: Vec<(i32, bool)> = tids.iter().map(|t| (*t, t % 2 == 0)).collect();
    assert_eq!(cache.affinity_sync(&outcome), vec![2, 4]);
    let mut left = cache.bound_threads();
    left.sort();
    assert_eq!(left, vec![1, 3, 5]);
    assert!(cache.affinity_sync(&vec![]).is_empty());
    assert_eq!(cache.tasks.len(), 3);
}

#[test]
fn package_by_name_or_main_thread() {
    let cfg = cfg("com.example.app{x}=1\ncom.example.other=2\n");
    let mut cache = ProcCache::new();
    assert_eq!(
        cache.pkg_lookup_comm(7, "com.example.app", &cfg),
        Some(("com.example.app".to_string(), true))
    );
    assert_eq!(
        cache.pkg_lookup_comm(7, "com.example.other", &cfg),
        Some(("com.example.other".to_string(), false))
    );
    assert_eq!(cache.pkg_lookup_comm(7, "RenderThread", &cfg), None);
    let decision = cache.task_decide(7, result("1", false));
    assert!(cache.task_apply(7, 7, "com.example.app", decision, false));
    assert_eq!(
        cache.pkg_lookup_comm(7, "RenderThread", &cfg),
        Some(("com.example.app".to_string(), true))
    );
    assert_eq!(cache.pkg_lookup_comm(8, "RenderThread", &cfg), None);
}

#[test]
fn plan_ignores_the_name_without_thread_rules() {
    let cfg = cfg("p=1\np{x}=2\n");
    let plan = task_plan("p", "x", true, &cfg);
    assert!(plan.matched);
    assert_eq!(plan.cpus.to_range_string(), "2");
    let plan = task_plan("p", "x", false, &cfg);
    assert!(!plan.matched);
    let r = settle_affinity(plan, "p", &cfg, false).unwrap();
    assert_eq!(r.cpus.to_range_string(), "1");
}
