use threadopt::config::{
    config_changed, config_reload, load_config, parse_rules, settle_dirs, wanted_dirs, AppConfig,
    LoadedConfig, NEVER_READ,
};
use threadopt::cpuset::{CpuSet, CpuTopology};
use threadopt::rule_match::thread_affinity;
use threadopt::{MAX_PKG_LEN, MAX_THREAD_LEN};

fn test_topo() -> CpuTopology {
    let mut present = CpuSet::new();
    for c in 0..8 {
        present.set(c);
    }
    let mut e = CpuSet::new();
    e.set(0);
    e.set(1);
    let mut p = CpuSet::new();
    p.set(2);
    p.set(3);
    let mut hp = CpuSet::new();
    for c in 4..8 {
        hp.set(c);
    }
    CpuTopology {
        present_cpus: present,
        present_str: "0-7".to_string(),
        mems_str: "0".to_string(),
        cpuset_enabled: false,
        e_core: e,
        p_core: p,
        hp_core: hp,
    }
}

fn load(content: &str, topo: &CpuTopology) -> LoadedConfig {
    let mut mtime: i64 = -1;
    load_config("test.conf", topo, &mut mtime, Some(100), Some(content)).unwrap()
}

fn rules_of(content: &str) -> (Vec<(String, String, String)>, usize) {
    let parsed = parse_rules(content, &test_topo());
    let rules = parsed
        .rules
        .iter()
        .map(|r| (r.pkg.clone(), r.thread.clone(), r.cpus.to_range_string()))
        .collect();
    (rules, parsed.faults)
}

fn one(pkg: &str, thread: &str, cpus: &str) -> (String, String, String) {
    (pkg.to_string(), thread.to_string(), cpus.to_string())
}

fn has(list: &Vec<String>, s: &str) -> bool {
    list.iter().any(|p| p == s)
}

#[test]
fn parse_basic_rules() {
    let content = "\
# 注释行
com.example.app=4-5
com.example.game {
    main_thread=0-3
    render_*=4-5
}
com.example.gallery{heavy_thread}=6-7
com.example.tool=0-3 {
    bg_thread=4-5
}
";
    let topo = test_topo();
    let mut mtime: i64 = -1;
    let cfg: AppConfig = load_config("test.conf", &topo, &mut mtime, Some(1), Some(content))
        .expect("合法配置应解析成功")
        .config;

    assert_eq!(cfg.rules.len(), 6);
    assert!(has(&cfg.pkgs, "com.example.app"));
    assert!(has(&cfg.pkgs, "com.example.game"));
    assert!(has(&cfg.pkgs, "com.example.gallery"));
    assert!(has(&cfg.pkgs, "com.example.tool"));
    let render = cfg.rules.iter().find(|r| r.thread == "render_*").unwrap();
    assert_eq!(render.cpus.to_range_string(), "4-5");
    let main_t = cfg
        .rules
        .iter()
        .find(|r| r.thread == "main_thread")
        .unwrap();
    assert_eq!(main_t.cpus.to_range_string(), "0-3");
    let heavy = cfg
        .rules
        .iter()
        .find(|r| r.thread == "heavy_thread")
        .unwrap();
    assert_eq!(heavy.cpus.to_range_string(), "6-7");
    let bg = cfg.rules.iter().find(|r| r.thread == "bg_thread").unwrap();
    assert_eq!(bg.cpus.to_range_string(), "4-5");
    let tool_pkg = cfg
        .rules
        .iter()
        .find(|r| r.pkg == "com.example.tool" && r.thread.is_empty())
        .unwrap();
    assert_eq!(tool_pkg.cpus.to_range_string(), "0-3");
}

#[test]
fn parse_invalid_lines_skipped() {
    let content = "\
com.example.app=4-5
=6
badline
com.example.game {
    =1
}
";
    let topo = test_topo();
    let mut mtime: i64 = -1;
    let cfg = load_config("test.conf", &topo, &mut mtime, Some(1), Some(content))
        .expect("存在无效行时仍应返回部分配置")
        .config;

    assert_eq!(cfg.rules.len(), 3);
    assert_eq!(cfg.rules[0].pkg, "com.example.app");
    assert!(cfg.rules.iter().any(|r| r.pkg.is_empty()));
    assert!(cfg.rules.iter().any(|r| r.pkg == "com.example.game"));
}

#[test]
fn parse_semantic_cores() {
    let content = "\
com.example.game=e-core,p-core {
    UnityMain=hp-core
}
";
    let topo = test_topo();
    let mut mtime: i64 = -1;
    let cfg = load_config("test.conf", &topo, &mut mtime, Some(1), Some(content))
        .expect("语义核心应解析成功")
        .config;

    let pkg = cfg.rules.iter().find(|r| r.thread.is_empty()).unwrap();
    assert_eq!(pkg.cpus.to_range_string(), "0-3");
    let um = cfg.rules.iter().find(|r| r.thread == "UnityMain").unwrap();
    assert_eq!(um.cpus.to_range_string(), "4-7");
}

#[test]
fn mtime_change_detection() {
    let before = "com.example.app=4-5\n";
    let after = "com.example.app=4-5\n\ncom.example.app2=0-1\n";
    let topo = test_topo();
    let mut mtime: i64 = -1;
    let first = load_config("test.conf", &topo, &mut mtime, Some(1000), Some(before));
    assert!(first.is_some(), "首次加载应返回配置");
    let again = load_config("test.conf", &topo, &mut mtime, Some(1000), Some(before));
    assert!(again.is_none(), "mtime 未变化时应返回 None");
    let changed = load_config("test.conf", &topo, &mut mtime, Some(1100), Some(after));
    assert!(changed.is_some(), "mtime 变化后应重新解析");
    assert_eq!(changed.unwrap().config.rules.len(), 2);
    assert_eq!(mtime, 1100);
}

#[test]
fn empty_and_comment_only() {
    let content = "\n# 只有注释\n// 双斜杠注释\n";
    let topo = test_topo();
    let mut mtime: i64 = -1;
    let cfg = load_config("test.conf", &topo, &mut mtime, Some(1), Some(content))
        .expect("空配置应解析成功")
        .config;
    assert!(cfg.rules.is_empty());
}

#[test]
fn documented_example() {
    let content = "\
# 注释行（# 或 // 开头）

com.example.app=4-5

com.example.game {
    main_thread=0-3
    render_*=4-5
    worker_?=6
}

com.example.app{heavy_thread}=6-7

com.example.app=0-3 {
    bg_thread=4-5
}
";
    let (rules, faults) = rules_of(content);
    assert_eq!(faults, 0);
    assert_eq!(
        rules,
        vec![
            one("com.example.app", "", "4-5"),
            one("com.example.game", "main_thread", "0-3"),
            one("com.example.game", "render_*", "4-5"),
            one("com.example.game", "worker_?", "6"),
            one("com.example.app", "heavy_thread", "6-7"),
            one("com.example.app", "", "0-3"),
            one("com.example.app", "bg_thread", "4-5"),
        ]
    );
}

#[test]
fn tier_names_say_what_numbers_say() {
    let mut topo = test_topo();
    let mut e = CpuSet::new();
    for c in 0..6 {
        e.set(c);
    }
    let mut hp = CpuSet::new();
    hp.set(6);
    hp.set(7);
    topo.e_core = e;
    topo.p_core = CpuSet::new();
    topo.hp_core = hp;
    let by_name = parse_rules(
        "com.tencent.tmgp.sgame=e-core,p-core {\n UnityMain=hp-core\n UnityGfxDeviceW=p-core,hp-core\n}\n",
        &topo,
    );
    let by_number = parse_rules(
        "com.tencent.tmgp.sgame=0-5 {\n UnityMain=6-7\n UnityGfxDeviceW=6-7\n}\n",
        &topo,
    );
    assert_eq!(by_name.faults, 0);
    assert_eq!(by_number.faults, 0);
    assert_eq!(by_name.rules.len(), 3);
    assert_eq!(by_number.rules.len(), 3);
    for k in 0..3 {
        assert_eq!(by_name.rules[k].pkg, by_number.rules[k].pkg);
        assert_eq!(by_name.rules[k].thread, by_number.rules[k].thread);
        assert_eq!(by_name.rules[k].cpus, by_number.rules[k].cpus);
    }
}

#[test]
fn compact_line_equals_block() {
    assert_eq!(rules_of("p{t}=1\n"), rules_of("p{\nt=1\n}\n"));
    assert_eq!(rules_of("p{t}=1\n"), (vec![one("p", "t", "1")], 0));
}

#[test]
fn rule_that_opens_a_block() {
    assert_eq!(
        rules_of("p=0 {\n t=1\n}\n"),
        (vec![one("p", "", "0"), one("p", "t", "1")], 0)
    );
    assert_eq!(rules_of("p={\n t=1\n}\n"), (vec![one("p", "t", "1")], 0));
    assert_eq!(
        rules_of("p{a}=0 {\n b=1\n}\n"),
        (vec![one("p", "a", "0"), one("p", "b", "1")], 0)
    );
    assert_eq!(
        rules_of("p{a}= {\n b=1\n}\n"),
        (vec![one("p", "b", "1")], 0)
    );
}

#[test]
fn package_waits_for_its_block() {
    assert_eq!(
        rules_of("p=\n\n# note\n{\n t=1\n}\n"),
        (vec![one("p", "t", "1")], 0)
    );
    // Something else comes, and the package waited in vain.
    assert_eq!(rules_of("p=\nq=1\n"), (vec![one("q", "", "1")], 1));
    assert_eq!(rules_of("p=\nnonsense\n"), (vec![], 1));
    assert_eq!(rules_of("p=\nq{t}=1\n"), (vec![one("q", "t", "1")], 1));
    assert_eq!(
        rules_of("p=\nq {\n t=1\n}\n"),
        (vec![one("q", "t", "1")], 1)
    );
    assert_eq!(rules_of("p=\nq=\n{\n t=1\n}\n"), (vec![one("q", "t", "1")], 1));
    assert_eq!(rules_of("p=\n"), (vec![], 1));
}

#[test]
fn last_rule_of_a_block_may_close_it() {
    assert_eq!(
        rules_of("p {\n a=0\n b=1 }\nq=2\n"),
        (
            vec![one("p", "a", "0"), one("p", "b", "1"), one("q", "", "2")],
            0
        )
    );
    // What follows the brace is ignored.
    assert_eq!(
        rules_of("p {\n a=0 } b=1\nq=2\n"),
        (vec![one("p", "a", "0"), one("q", "", "2")], 0)
    );
}

#[test]
fn faults_are_counted() {
    // No separator in a block.
    assert_eq!(rules_of("p {\n oops\n}\n"), (vec![], 1));
    // A block without a package.
    assert_eq!(rules_of("{\n"), (vec![], 1));
    // A block that is not closed.
    assert_eq!(rules_of("p {\n t=1\n"), (vec![one("p", "t", "1")], 1));
    // No value after the braces.
    assert_eq!(rules_of("p{t}\n"), (vec![], 1));
    // No CPU.
    assert_eq!(rules_of("p=9-12\n"), (vec![], 1));
    assert_eq!(rules_of("p=x\n"), (vec![], 1));
    assert_eq!(rules_of("p{t}=\n"), (vec![], 1));
    // A line without a separator outside of blocks is no fault by itself.
    assert_eq!(rules_of("nonsense\n"), (vec![], 0));
}

#[test]
fn names_may_not_be_too_long() {
    let pkg = "a".repeat(MAX_PKG_LEN - 1);
    assert_eq!(
        rules_of(&format!("{}=1", pkg)),
        (vec![one(&pkg, "", "1")], 0)
    );
    assert_eq!(rules_of(&format!("{}a=1", pkg)), (vec![], 1));
    let thread = "t".repeat(MAX_THREAD_LEN - 1);
    assert_eq!(
        rules_of(&format!("p{{{}}}=1", thread)),
        (vec![one("p", &thread, "1")], 0)
    );
    assert_eq!(rules_of(&format!("p{{{}t}}=1", thread)), (vec![], 1));
    // Bytes count, not characters.
    assert_eq!(
        rules_of(&format!("p{{{}}}=1", "线".repeat(11))),
        (vec![], 1)
    );
}

#[test]
fn comments_change_nothing() {
    let with = "# a\np {\n// b\n\n t=1\n # c\n}\n";
    let without = "p {\n t=1\n}\n";
    assert_eq!(rules_of(with), rules_of(without));
    // A comment sign after the start of a line is part of the line.
    assert_eq!(rules_of("p=1 # x\n"), (vec![], 1));
}

#[test]
fn line_ends_and_spaces() {
    assert_eq!(
        rules_of("  p =  1 \r\n\tq\t=2"),
        (vec![one("p", "", "1"), one("q", "", "2")], 0)
    );
    assert_eq!(rules_of(""), (vec![], 0));
}

#[test]
fn value_may_hold_another_equals_sign() {
    assert_eq!(rules_of("p=1=2\n"), (vec![], 1));
    assert_eq!(rules_of("p {\n t=1=2\n}\n"), (vec![], 1));
}

#[test]
fn packages_are_listed_once() {
    let cfg = load("b=1\na{t}=2\nb{t}=3\na=4\n", &test_topo()).config;
    assert_eq!(cfg.pkgs, vec!["b".to_string(), "a".to_string()]);
    assert_eq!(cfg.has_thread_rules, vec!["a".to_string(), "b".to_string()]);
    assert_eq!(cfg.config_file, "test.conf");
    assert_eq!(cfg.topo.present_str, "0-7");
}

#[test]
fn pattern_is_the_thread_name() {
    let cfg = load("p{a*}=1\n", &test_topo()).config;
    assert_eq!(cfg.rules[0].thread_pattern, "a*");
    assert_eq!(cfg.rules[0].cpuset_dir, "");
}

#[test]
fn nothing_loads_without_the_file() {
    let topo = test_topo();
    let mut mtime: i64 = 5;
    assert!(load_config("f", &topo, &mut mtime, None, Some("p=1")).is_none());
    assert!(load_config("f", &topo, &mut mtime, Some(6), None).is_none());
    assert_eq!(mtime, 5);
}

#[test]
fn faulty_file_is_read_again() {
    let topo = test_topo();
    let mut mtime: i64 = NEVER_READ;
    let first = load_config("f", &topo, &mut mtime, Some(7), Some("p=1\nq=x\n")).unwrap();
    assert_eq!(first.faults, 1);
    assert_eq!(first.config.rules.len(), 1);
    assert_eq!(mtime, NEVER_READ);
    assert!(load_config("f", &topo, &mut mtime, Some(7), Some("p=1\nq=x\n")).is_some());
    let good = load_config("f", &topo, &mut mtime, Some(7), Some("p=1\nq=2\n")).unwrap();
    assert_eq!(good.faults, 0);
    assert_eq!(mtime, 7);
    assert!(load_config("f", &topo, &mut mtime, Some(7), Some("p=1\n")).is_none());
}

#[test]
fn changes_of_the_file() {
    assert!(config_changed(NEVER_READ, 3));
    assert!(config_changed(NEVER_READ, NEVER_READ));
    assert!(!config_changed(3, 3));
    assert!(config_changed(3, 4));
    assert!(config_changed(4, 3));
}

#[test]
fn reload_keeps_file_and_topology() {
    let mut mtime: i64 = NEVER_READ;
    assert!(config_reload(None, &mut mtime, Some(1), Some("p=1")).is_none());
    assert_eq!(mtime, NEVER_READ);
    let cfg = load("p=1\n", &test_topo()).config;
    let next = config_reload(Some(&cfg), &mut mtime, Some(9), Some("q=2\n")).unwrap();
    assert_eq!(next.config.config_file, "test.conf");
    assert_eq!(next.config.topo.mems_str, "0");
    assert_eq!(next.config.pkgs, vec!["q".to_string()]);
    assert_eq!(mtime, 9);
    assert!(config_reload(Some(&cfg), &mut mtime, Some(9), Some("q=3\n")).is_none());
}

#[test]
fn directories_of_package_rules() {
    let mut topo = test_topo();
    topo.cpuset_enabled = true;
    let mut cfg = load("p=0-1\nq{t}=2\nr=5\n", &topo).config;
    assert_eq!(cfg.rules[0].cpuset_dir, "0-1");
    let dirs = wanted_dirs(&cfg, "/dev/cpuset/T");
    assert_eq!(dirs.len(), 3);
    let first = dirs[0].as_ref().unwrap();
    assert_eq!(first.path, "/dev/cpuset/T/0-1");
    assert_eq!(first.cpus, "0-1");
    assert_eq!(first.mems, "0");
    assert!(dirs[1].is_none());
    assert_eq!(dirs[2].as_ref().unwrap().path, "/dev/cpuset/T/5");
    settle_dirs(&mut cfg, &vec![true, false, false]);
    assert_eq!(cfg.rules[0].cpuset_dir, "0-1");
    assert_eq!(cfg.rules[1].cpuset_dir, "");
    assert_eq!(cfg.rules[2].cpuset_dir, "");
    settle_dirs(&mut cfg, &vec![]);
    assert_eq!(cfg.rules[0].cpuset_dir, "");
    assert_eq!(cfg.rules[2].cpus.to_range_string(), "5");
}

#[test]
fn no_directories_without_cpusets() {
    let cfg = load("p=0-1\n", &test_topo()).config;
    assert_eq!(cfg.rules[0].cpuset_dir, "");
    assert!(wanted_dirs(&cfg, "/dev/cpuset/T")[0].is_none());
}

#[test]
fn from_the_file_to_the_binding() {
    let mut topo = test_topo();
    topo.cpuset_enabled = true;
    let cfg = load("p=0-1\n", &topo).config;
    let r = thread_affinity("p", "anything", &cfg, false).unwrap();
    assert_eq!(r.cpus.to_range_string(), "0-1");
    assert_eq!(r.cpuset_dir, "0-1");
    assert!(!r.is_thread_rule);
    assert!(thread_affinity("q", "anything", &cfg, false).is_none());

    let cfg = load("p{ren*}=hp-core\n", &topo).config;
    let r = thread_affinity("p", "render", &cfg, true).unwrap();
    assert_eq!(r.cpus.to_range_string(), "4-7");
    assert_eq!(r.cpuset_dir, "4-7");
    assert!(r.is_thread_rule);
    let r = thread_affinity("p", "other", &cfg, true).unwrap();
    assert_eq!(r.cpus.to_range_string(), "0-7");
    assert_eq!(r.cpuset_dir, "");

    let cfg = load("p=2 {\n a*=0\n *b=1\n}\n", &topo).config;
    assert_eq!(
        thread_affinity("p", "ab", &cfg, true).unwrap().cpus.to_range_string(),
        "0-1"
    );
    assert_eq!(
        thread_affinity("p", "x", &cfg, true).unwrap().cpus.to_range_string(),
        "2"
    );
}
