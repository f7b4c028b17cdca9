use threadopt::topology::{
    detect_core_types, enable_cpuset, init_cpu_topo, wanted_base_dir, CpuPolicy,
};

fn policy(name: &str, freq: &str, cpus: &str) -> CpuPolicy {
    CpuPolicy {
        name: name.to_string(),
        max_freq: Some(freq.to_string()),
        related_cpus: Some(cpus.to_string()),
    }
}

fn tiers(policies: Vec<CpuPolicy>) -> (String, String, String) {
    let (e, p, h) = detect_core_types(&policies);
    (
        e.to_range_string(),
        p.to_range_string(),
        h.to_range_string(),
    )
}

fn expect(e: &str, p: &str, h: &str) -> (String, String, String) {
    (e.to_string(), p.to_string(), h.to_string())
}

#[test]
fn three_clusters() {
    assert_eq!(
        tiers(vec![
            policy("policy4", "2850000\n", "4 5 6\n"),
            policy("policy0", "1800000\n", "0 1 2 3\n"),
            policy("policy7", "3350000\n", "7\n"),
        ]),
        expect("0-3", "4-6", "7")
    );
}

#[test]
fn middle_clusters_are_merged() {
    assert_eq!(
        tiers(vec![
            policy("policy0", "1000", "0 1"),
            policy("policy2", "2000", "2 3"),
            policy("policy4", "2500", "4 5"),
            policy("policy6", "3000", "6 7"),
        ]),
        expect("0-1", "2-5", "6-7")
    );
}

#[test]
fn two_clusters_have_no_middle() {
    assert_eq!(
        tiers(vec![
            policy("policy6", "4320000", "6 7"),
            policy("policy0", "3530000", "0 1 2 3 4 5"),
        ]),
        expect("0-5", "", "6-7")
    );
}

#[test]
fn one_cluster_is_efficiency() {
    assert_eq!(
        tiers(vec![policy("policy0", "1000", "0 1"), policy("policy2", "1000", "2 3")]),
        expect("0-3", "", "")
    );
    assert_eq!(tiers(vec![]), expect("", "", ""));
}

#[test]
fn entries_that_do_not_count() {
    let mut unknown = policy("policy9", "1", "9");
    unknown.max_freq = None;
    let mut empty = policy("policy8", "9999", "8");
    empty.related_cpus = None;
    assert_eq!(
        tiers(vec![
            policy("boost", "1", "5"),
            policy("policy0", "0", "6"),
            policy("policy0", "fast", "6"),
            policy("policy0", "1", " \n"),
            policy("policy0", "1", "x y"),
            unknown,
            empty,
            policy("policy0", "100", "0 x 1"),
            policy("policy2", "200", "2\t3\n"),
        ]),
        expect("0-1", "", "2-3")
    );
}

#[test]
fn cpus_beyond_the_end_are_left_out() {
    assert_eq!(
        tiers(vec![policy("policy0", "100", "0 1023 1024 99999")]),
        expect("0,1023", "", "")
    );
}

#[test]
fn topology_from_system_files() {
    let policies = vec![policy("policy0", "1", "0 1"), policy("policy2", "2", "2 3")];
    let topo = init_cpu_topo(Some("0-3\n"), &policies, true, Some(" 0-1 \n"));
    assert_eq!(topo.present_str, "0-3");
    assert_eq!(topo.present_cpus.to_range_string(), "0-3");
    assert_eq!(topo.mems_str, "0-1");
    assert!(!topo.cpuset_enabled);
    assert_eq!(topo.e_core.to_range_string(), "0-1");
    assert_eq!(topo.p_core.to_range_string(), "");
    assert_eq!(topo.hp_core.to_range_string(), "2-3");
}

#[test]
fn topology_without_system_files() {
    let topo = init_cpu_topo(None, &vec![], false, Some("0"));
    assert_eq!(topo.present_str, "");
    assert_eq!(topo.present_cpus.count(), 0);
    assert_eq!(topo.mems_str, "");
    assert_eq!(init_cpu_topo(None, &vec![], true, None).mems_str, "0");
    assert_eq!(init_cpu_topo(None, &vec![], true, Some(" \n")).mems_str, "0");
}

#[test]
fn base_directory_holds_all_cpus() {
    let mut topo = init_cpu_topo(Some("0-7"), &vec![], true, None);
    let dir = wanted_base_dir(&topo, true, "/dev/cpuset/ThreadOpt").unwrap();
    assert_eq!(dir.path, "/dev/cpuset/ThreadOpt");
    assert_eq!(dir.cpus, "0-7");
    assert_eq!(dir.mems, "0");
    enable_cpuset(&mut topo, true, true);
    assert!(topo.cpuset_enabled);
    assert_eq!(topo.present_str, "0-7");
    enable_cpuset(&mut topo, true, false);
    assert!(!topo.cpuset_enabled);
}

#[test]
fn no_base_directory_without_cpusets() {
    let mut topo = init_cpu_topo(Some("0-7"), &vec![], false, None);
    assert!(wanted_base_dir(&topo, false, "/dev/cpuset/ThreadOpt").is_none());
    enable_cpuset(&mut topo, false, true);
    assert!(!topo.cpuset_enabled);
    enable_cpuset(&mut topo, false, false);
    assert!(!topo.cpuset_enabled);
}
