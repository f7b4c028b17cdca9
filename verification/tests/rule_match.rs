use threadopt::config::{AffinityRule, AppConfig};
use threadopt::cpuset::{parse_cpu_spec, CpuSet, CpuTopology};
use threadopt::rule_match::{
    comm_to_pkg, fnmatch_c, match_pattern, plan_affinity, settle_affinity, thread_affinity,
};
use threadopt::MAX_THREAD_LEN;

fn topo() -> CpuTopology {
    let mut present = CpuSet::new();
    for c in 0..8 {
        present.set(c);
    }
    let mut e = CpuSet::new();
    e.set(0);
    e.set(1);
    let mut p = CpuSet::new();
    p.set(2);
    p.set(3);
    let mut hp = CpuSet::new();
    for c in 4..8 {
        hp.set(c);
    }
    CpuTopology {
        present_cpus: present,
        present_str: "0-7".to_string(),
        mems_str: "0".to_string(),
        cpuset_enabled: false,
        e_core: e,
        p_core: p,
        hp_core: hp,
    }
}

fn rule(pkg: &str, thread: &str, dir: &str, cpus_spec: &str) -> AffinityRule {
    AffinityRule {
        pkg: pkg.to_string(),
        thread: thread.to_string(),
        thread_pattern: thread.to_string(),
        cpuset_dir: dir.to_string(),
        cpus: parse_cpu_spec(cpus_spec, &topo()),
    }
}

fn cfg_of(rules: Vec<AffinityRule>) -> AppConfig {
    let mut pkgs: Vec<String> = Vec::new();
    let mut has_thread_rules: Vec<String> = Vec::new();
    for r in &rules {
        if !pkgs.contains(&r.pkg) {
            pkgs.push(r.pkg.clone());
        }
        if !r.thread.is_empty() && !has_thread_rules.contains(&r.pkg) {
            has_thread_rules.push(r.pkg.clone());
        }
    }
    AppConfig {
        rules,
        pkgs,
        has_thread_rules,
        topo: topo(),
        config_file: String::new(),
    }
}

fn cfg_with(pkg: &str, thread: &str, cpus_spec: &str) -> AppConfig {
    cfg_of(vec![rule(pkg, thread, "", cpus_spec)])
}

#[test]
fn fnmatch_star() {
    assert!(fnmatch_c("render_*", "render_thread"));
    assert!(fnmatch_c("render_*", "render_"));
    assert!(!fnmatch_c("render_*", "render"));
    assert!(fnmatch_c("render*", "render"));
    assert!(fnmatch_c("*", "anything"));
    assert!(fnmatch_c("*", ""));
    assert!(!fnmatch_c("render_*", "other_thread"));
}

#[test]
fn fnmatch_question() {
    assert!(fnmatch_c("worker_?", "worker_1"));
    assert!(fnmatch_c("worker_?", "worker_A"));
    assert!(fnmatch_c("worker_?", "worker__"));
    assert!(!fnmatch_c("worker_?", "worker_"));
    assert!(!fnmatch_c("worker_?", "worker_12"));
}

#[test]
fn fnmatch_char_class() {
    assert!(fnmatch_c("thread_[0-9]", "thread_5"));
    assert!(fnmatch_c("thread_[0-9]", "thread_0"));
    assert!(!fnmatch_c("thread_[0-9]", "thread_a"));
    assert!(fnmatch_c("thread_[a-f]", "thread_c"));
    assert!(fnmatch_c("thread_[abc]", "thread_b"));
    assert!(fnmatch_c("thread_[!0-9]", "thread_x"));
    assert!(!fnmatch_c("thread_[!0-9]", "thread_3"));
}

#[test]
fn fnmatch_exact_and_edge() {
    assert!(fnmatch_c("main", "main"));
    assert!(!fnmatch_c("main", "mainx"));
    assert!(!fnmatch_c("main", ""));
    assert!(fnmatch_c("", ""));
    assert!(!fnmatch_c("", "x"));
    let long = "x".repeat(MAX_THREAD_LEN);
    assert!(!fnmatch_c("*", &long));
    assert!(fnmatch_c("*", &"x".repeat(MAX_THREAD_LEN - 1)));
}

#[test]
fn fnmatch_unclosed_class() {
    assert!(!fnmatch_c("thread_[0-9", "thread_5"));
}

#[test]
fn thread_rule_matches() {
    let cfg = cfg_with("com.example.game", "render_*", "4-5");
    let r = thread_affinity("com.example.game", "render_thread", &cfg, false).unwrap();
    assert!(r.is_thread_rule);
    assert_eq!(r.cpus.to_range_string(), "4-5");
    assert!(!r.cpus.is_set(3));
}

#[test]
fn thread_rule_merges_multiple() {
    let mut cfg = cfg_with("com.example.game", "a*", "0-1");
    cfg.rules.push(AffinityRule {
        pkg: "com.example.game".to_string(),
        thread: "*b".to_string(),
        thread_pattern: "*b".to_string(),
        cpuset_dir: String::new(),
        cpus: {
            let mut c = CpuSet::new();
            c.set(6);
            c.set(7);
            c
        },
    });
    let r = thread_affinity("com.example.game", "ab", &cfg, false).unwrap();
    assert_eq!(r.cpus.to_range_string(), "0-1,6-7");
}

#[test]
fn pkg_fallback_when_no_thread_match() {
    let cfg = cfg_with("com.example.app", "", "2-3");
    let r = thread_affinity("com.example.app", "some_thread", &cfg, false).unwrap();
    assert!(!r.is_thread_rule);
    assert_eq!(r.cpus.to_range_string(), "2-3");
}

#[test]
fn no_rule_returns_none() {
    let cfg = cfg_with("com.example.app", "", "2-3");
    assert!(thread_affinity("com.other.app", "t", &cfg, false).is_none());
}

#[test]
fn thread_rules_exist_fallback_to_present() {
    let cfg = cfg_with("com.example.game", "render_*", "4-5");
    let r = thread_affinity("com.example.game", "bg_worker", &cfg, false).unwrap();
    assert_eq!(r.cpus.to_range_string(), "0-7");
}

#[test]
fn comm_exact_match() {
    let cfg = cfg_with("com.example.app", "", "0");
    assert_eq!(
        comm_to_pkg("com.example.app", &cfg),
        Some("com.example.app".to_string())
    );
}

#[test]
fn comm_prefix_and_suffix() {
    let cfg = cfg_with("com.example.myapplication", "", "0");
    assert_eq!(
        comm_to_pkg("com.example.myap", &cfg),
        Some("com.example.myapplication".to_string())
    );
    assert_eq!(
        comm_to_pkg("xample.myapplication", &cfg),
        Some("com.example.myapplication".to_string())
    );
}

#[test]
fn comm_short_no_match() {
    let cfg = cfg_with("com.example.application", "", "0");
    assert_eq!(comm_to_pkg("app", &cfg), None);
    assert_eq!(comm_to_pkg("e.application", &cfg), None);
}

#[test]
fn star_in_the_middle_and_several_stars() {
    assert!(fnmatch_c("a*b*c", "aXXbYYc"));
    assert!(fnmatch_c("a**c", "ac"));
    assert!(fnmatch_c("*ab", "aab"));
    assert!(!fnmatch_c("a*b*c", "aXXcYYb"));
    assert!(fnmatch_c("*?", "x"));
    assert!(!fnmatch_c("*?", ""));
}

#[test]
fn star_alone_and_runs_of_stars() {
    let chars = |t: &str| t.chars().collect::<Vec<char>>();
    for name in ["", "a", "ab", "线程", "aab"] {
        let s = chars(name);
        assert!(match_pattern(&['*'], &s));
        for rest in ["", "b", "?", "ab", "[a-b]"] {
            let once = match_pattern(&chars(&format!("*{}", rest)), &s);
            assert_eq!(match_pattern(&chars(&format!("***{}", rest)), &s), once);
            let split = (0..=s.len()).any(|k| match_pattern(&chars(rest), &s[k..]));
            assert_eq!(once, split);
        }
    }
    // The limit on the length of a name is not one of patterns.
    assert!(match_pattern(&['*'], &chars(&"x".repeat(100))));
}

#[test]
fn literal_matches_itself_alone() {
    assert!(fnmatch_c("RenderThread", "RenderThread"));
    assert!(!fnmatch_c("RenderThread", "renderThread"));
    assert!(!fnmatch_c("RenderThread", "RenderThrea"));
}

#[test]
fn class_edges() {
    assert!(fnmatch_c("[]]", "]"));
    assert!(fnmatch_c("[!]]", "x"));
    assert!(!fnmatch_c("[!]]", "]"));
    assert!(fnmatch_c("[^0-9]", "x"));
    assert!(!fnmatch_c("[^0-9]", "7"));
    assert!(fnmatch_c("[a-]", "-"));
    assert!(fnmatch_c("[-a]", "-"));
    assert!(!fnmatch_c("[9-0]", "5"));
    assert!(fnmatch_c("[a-cx-z]1", "y1"));
    assert!(!fnmatch_c("[]", "]"));
    assert!(!fnmatch_c("[", "["));
    assert!(!fnmatch_c("[a]", ""));
}

#[test]
fn patterns_work_on_characters() {
    assert!(fnmatch_c("线程", "线程"));
    assert!(fnmatch_c("线*", "线程"));
    assert!(fnmatch_c("?", "é"));
    assert!(!fnmatch_c("??", "é"));
    assert!(fnmatch_c("worker_?", "worker_é"));
    assert!(!fnmatch_c("worker_?", "worker_éé"));
    assert!(fnmatch_c("[é线]", "线"));
    assert!(!fnmatch_c("[é线]", "程"));
    assert!(fnmatch_c("[à-ü]x", "éx"));
    assert!(!fnmatch_c("[à-ü]x", "线x"));
    assert!(fnmatch_c("[!a-z]", "é"));
    assert!(!fnmatch_c("[!é]", "é"));
    assert!(fnmatch_c("*?", "线程"));
    // Eleven characters of three bytes are too long for a thread name.
    assert!(!fnmatch_c("*", &"线".repeat(11)));
    assert!(fnmatch_c("*", &"线".repeat(10)));
}

#[test]
fn thread_rules_win_over_package_rules() {
    let cfg = cfg_of(vec![
        rule("p", "", "0-3", "0-3"),
        rule("p", "render*", "", "6"),
    ]);
    let r = thread_affinity("p", "render1", &cfg, true).unwrap();
    assert!(r.is_thread_rule);
    assert_eq!(r.cpus.to_range_string(), "6");
    let r = thread_affinity("p", "other", &cfg, true).unwrap();
    assert!(!r.is_thread_rule);
    assert_eq!(r.cpus.to_range_string(), "0-3");
    assert_eq!(r.cpuset_dir, "0-3");
}

#[test]
fn thread_without_a_name_is_bound_by_the_package() {
    let cfg = cfg_of(vec![rule("p", "*", "", "6"), rule("p", "", "", "1")]);
    let r = thread_affinity("p", "", &cfg, false).unwrap();
    assert!(!r.is_thread_rule);
    assert_eq!(r.cpus.to_range_string(), "1");
}

#[test]
fn several_package_rules_merge_without_a_directory() {
    let cfg = cfg_of(vec![
        rule("p", "", "0", "0"),
        rule("q", "", "7", "7"),
        rule("p", "", "2", "2"),
    ]);
    let r = thread_affinity("p", "t", &cfg, true).unwrap();
    assert_eq!(r.cpus.to_range_string(), "0,2");
    assert_eq!(r.cpuset_dir, "");
    let r = thread_affinity("q", "t", &cfg, true).unwrap();
    assert_eq!(r.cpuset_dir, "7");
}

#[test]
fn rule_order_is_irrelevant_for_cpus() {
    let a = cfg_of(vec![rule("p", "a*", "", "1"), rule("p", "*b", "", "5")]);
    let b = cfg_of(vec![rule("p", "*b", "", "5"), rule("p", "a*", "", "1")]);
    let ra = thread_affinity("p", "ab", &a, false).unwrap();
    let rb = thread_affinity("p", "ab", &b, false).unwrap();
    assert_eq!(ra.cpus, rb.cpus);
    assert_eq!(ra.cpus.to_range_string(), "1,5");
}

#[test]
fn other_packages_have_no_influence() {
    let a = cfg_of(vec![
        rule("q", "", "7", "7"),
        rule("p", "", "2", "2"),
        rule("p", "x*", "", "3"),
    ]);
    let b = cfg_of(vec![rule("p", "x*", "", "3"), rule("p", "", "2", "2")]);
    for thread in ["", "x1", "y"] {
        let pa = plan_affinity("p", thread, &a);
        let pb = plan_affinity("p", thread, &b);
        assert_eq!(pa.cpus, pb.cpus);
        assert_eq!(pa.package_dir, pb.package_dir);
        assert_eq!(pa.matched, pb.matched);
    }
    assert_eq!(plan_affinity("p", "y", &a).package_dir, "2");
}

#[test]
fn thread_directory_follows_the_merged_cpus() {
    let mut cfg = cfg_of(vec![rule("p", "a*", "", "0-1"), rule("p", "*b", "", "6")]);
    assert!(plan_affinity("p", "ab", &cfg)
        .wanted_dir(&cfg.topo, "/dev/cpuset/T")
        .is_none());
    assert_eq!(thread_affinity("p", "ab", &cfg, true).unwrap().cpuset_dir, "");
    cfg.topo.cpuset_enabled = true;
    let plan = plan_affinity("p", "ab", &cfg);
    let dir = plan.wanted_dir(&cfg.topo, "/dev/cpuset/T").unwrap();
    assert_eq!(dir.path, "/dev/cpuset/T/0-1,6");
    assert_eq!(dir.cpus, "0-1,6");
    assert_eq!(dir.mems, "0");
    assert_eq!(
        settle_affinity(plan, "p", &cfg, true).unwrap().cpuset_dir,
        "0-1,6"
    );
    assert_eq!(thread_affinity("p", "ab", &cfg, false).unwrap().cpuset_dir, "");
    assert!(plan_affinity("p", "x", &cfg)
        .wanted_dir(&cfg.topo, "/dev/cpuset/T")
        .is_none());
}

#[test]
fn fallback_to_present_is_no_thread_rule() {
    let cfg = cfg_with("p", "render_*", "4-5");
    let r = thread_affinity("p", "", &cfg, true).unwrap();
    assert!(!r.is_thread_rule);
    assert_eq!(r.cpuset_dir, "");
    assert_eq!(r.cpus, cfg.topo.present_cpus);
}

#[test]
fn comm_takes_the_first_package_that_fits() {
    let cfg = cfg_of(vec![
        rule("x.com.example.application", "", "", "0"),
        rule("com.example.applications", "", "", "0"),
    ]);
    // Beginning with the name goes before ending with it.
    assert_eq!(
        comm_to_pkg("com.example.application", &cfg),
        Some("com.example.applications".to_string())
    );
    assert_eq!(
        comm_to_pkg("om.example.application", &cfg),
        Some("x.com.example.application".to_string())
    );
    assert_eq!(comm_to_pkg("com.example.none", &cfg), None);
}

#[test]
fn comm_length_counts_bytes() {
    let cfg = cfg_with("应用应用应用", "", "0");
    // Five characters of three bytes each.
    assert_eq!(
        comm_to_pkg("应用应用应", &cfg),
        Some("应用应用应用".to_string())
    );
    assert_eq!(comm_to_pkg("应用应用", &cfg), None);
}
