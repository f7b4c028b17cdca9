use threadopt::cpuset::{
    base_cpuset, cpuset_dir, create_cpuset_dir, ensure_cpuset_dir, parse_cpu_ranges,
    parse_cpu_spec, set_base_cpuset, valid_cpuset_name, BaseCpuset, CpuSet, CpuTopology,
    DirOutcome, DirStep, CPU_SETSIZE,
};

fn set_of(cpus: &[usize]) -> CpuSet {
    let mut s = CpuSet::new();
    for c in cpus {
        s.set(*c);
    }
    s
}

fn present_0_7() -> CpuSet {
    let mut s = CpuSet::new();
    for c in 0..8 {
        s.set(c);
    }
    s
}

fn topo_0_7() -> CpuTopology {
    let mut e = CpuSet::new();
    e.set(0);
    e.set(1);
    let mut p = CpuSet::new();
    p.set(2);
    p.set(3);
    let mut hp = CpuSet::new();
    for c in 4..8 {
        hp.set(c);
    }
    CpuTopology {
        present_cpus: present_0_7(),
        present_str: "0-7".to_string(),
        mems_str: "0".to_string(),
        cpuset_enabled: false,
        e_core: e,
        p_core: p,
        hp_core: hp,
    }
}

#[test]
fn bitset_basic() {
    let mut s = CpuSet::new();
    assert_eq!(s.count(), 0);
    s.set(0);
    s.set(3);
    s.set(3);
    assert!(s.is_set(0));
    assert!(s.is_set(3));
    assert!(!s.is_set(1));
    assert_eq!(s.count(), 2);
    s.set(CPU_SETSIZE);
    assert!(!s.is_set(CPU_SETSIZE));
}

#[test]
fn bitset_or_merge() {
    let mut a = CpuSet::new();
    a.set(0);
    a.set(4);
    let mut b = CpuSet::new();
    b.set(4);
    b.set(7);
    a.or(&b);
    assert!(a.is_set(0) && a.is_set(4) && a.is_set(7));
    assert_eq!(a.count(), 3);
}

#[test]
fn range_string_single() {
    let mut s = CpuSet::new();
    s.set(0);
    assert_eq!(s.to_range_string(), "0");
    s.set(1);
    s.set(2);
    s.set(3);
    assert_eq!(s.to_range_string(), "0-3");
}

#[test]
fn range_string_mixed() {
    let mut s = CpuSet::new();
    for c in [0usize, 1, 2, 3, 5, 7, 8] {
        s.set(c);
    }
    assert_eq!(s.to_range_string(), "0-3,5,7-8");
}

#[test]
fn range_string_spans_words() {
    let mut s = CpuSet::new();
    s.set(63);
    s.set(64);
    s.set(65);
    assert_eq!(s.to_range_string(), "63-65");
    assert_eq!(s.count(), 3);
}

#[test]
fn range_string_empty() {
    assert_eq!(CpuSet::new().to_range_string(), "");
}

#[test]
fn parse_single_and_range() {
    let s = parse_cpu_ranges("0-3,5,7-8", None);
    assert_eq!(s.to_range_string(), "0-3,5,7-8");
}

#[test]
fn parse_reversed_range() {
    let s = parse_cpu_ranges("8-5", None);
    assert_eq!(s.to_range_string(), "5-8");
}

#[test]
fn parse_invalid_and_whitespace() {
    let s = parse_cpu_ranges(" 0-3 , 5 , bad , ", None);
    assert_eq!(s.to_range_string(), "0-3,5");
    let s = parse_cpu_ranges("", None);
    assert_eq!(s.count(), 0);
    let s = parse_cpu_ranges("abc", None);
    assert_eq!(s.count(), 0);
}

#[test]
fn parse_out_of_range_clamped() {
    let s = parse_cpu_ranges("0-2000", None);
    assert!(s.is_set(CPU_SETSIZE - 1));
    assert_eq!(s.count(), CPU_SETSIZE);
    let s = parse_cpu_ranges("2000-3000", None);
    assert_eq!(s.count(), 0);
}

#[test]
fn parse_present_filter() {
    let present = present_0_7();
    let s = parse_cpu_ranges("5-10", Some(&present));
    assert_eq!(s.to_range_string(), "5-7");
}

#[test]
fn parse_spec_semantic_cores() {
    let topo = topo_0_7();
    assert_eq!(parse_cpu_spec("e-core", &topo).to_range_string(), "0-1");
    assert_eq!(parse_cpu_spec("p-core", &topo).to_range_string(), "2-3");
    assert_eq!(parse_cpu_spec("hp-core", &topo).to_range_string(), "4-7");
    assert_eq!(parse_cpu_spec("all-core", &topo).to_range_string(), "0-7");
}

#[test]
fn parse_spec_mixed() {
    let topo = topo_0_7();
    assert_eq!(
        parse_cpu_spec("e-core,p-core", &topo).to_range_string(),
        "0-3"
    );
    assert_eq!(
        parse_cpu_spec("hp-core,1", &topo).to_range_string(),
        "1,4-7"
    );
    assert_eq!(
        parse_cpu_spec("e-core,7-8", &topo).to_range_string(),
        "0-1,7"
    );
}

#[test]
fn parse_spec_empty_and_unknown() {
    let topo = topo_0_7();
    assert_eq!(parse_cpu_spec("", &topo).count(), 0);
    assert_eq!(parse_cpu_spec("unknown-core", &topo).count(), 0);
}

#[test]
fn default_set_is_empty() {
    let s: CpuSet = Default::default();
    assert_eq!(s, CpuSet::new());
    assert_eq!(s.count(), 0);
}

#[test]
fn bits_are_laid_out_by_words() {
    let s = set_of(&[0, 63, 64, 1023]);
    assert_eq!(s.bits[0], (1u64 << 63) | 1);
    assert_eq!(s.bits[1], 1);
    assert_eq!(s.bits[15], 1u64 << 63);
}

#[test]
fn set_beyond_the_end_changes_nothing() {
    let mut s = set_of(&[7]);
    s.set(1024);
    s.set(usize::MAX);
    assert_eq!(s, set_of(&[7]));
    assert!(!s.is_set(usize::MAX));
}

#[test]
fn or_leaves_the_other_set() {
    let mut a = set_of(&[1]);
    let b = set_of(&[1, 900]);
    a.or(&b);
    assert_eq!(a, set_of(&[1, 900]));
    assert_eq!(b, set_of(&[1, 900]));
}

#[test]
fn range_string_reads_back() {
    for cpus in [
        vec![],
        vec![0],
        vec![1023],
        vec![0, 1, 2, 62, 63, 64, 127, 128, 500, 1022, 1023],
        vec![10, 12, 14, 15],
    ] {
        let s = set_of(&cpus);
        assert_eq!(parse_cpu_ranges(&s.to_range_string(), None), s);
    }
    assert_eq!(
        set_of(&[0, 1, 2, 62, 63, 64, 1023]).to_range_string(),
        "0-2,62-64,1023"
    );
}

#[test]
fn range_strings_of_different_sets_differ() {
    assert_ne!(
        set_of(&[1, 2]).to_range_string(),
        set_of(&[1, 2, 4]).to_range_string()
    );
    assert_ne!(
        set_of(&[12]).to_range_string(),
        set_of(&[1, 2]).to_range_string()
    );
}

#[test]
fn full_set_is_one_run() {
    let s = parse_cpu_ranges("0-1023", None);
    assert_eq!(s.to_range_string(), "0-1023");
    assert_eq!(s.count(), 1024);
}

#[test]
fn comma_is_union() {
    let mut both = parse_cpu_ranges("0-3", None);
    both.or(&parse_cpu_ranges("2-5", None));
    assert_eq!(parse_cpu_ranges("0-3,2-5", None), both);
    let topo = topo_0_7();
    let mut tiers = parse_cpu_spec("e-core", &topo);
    tiers.or(&parse_cpu_spec("5", &topo));
    assert_eq!(parse_cpu_spec("e-core,5", &topo), tiers);
}

#[test]
fn open_range_is_a_single_cpu() {
    assert_eq!(parse_cpu_ranges("3-", None), set_of(&[3]));
    assert_eq!(parse_cpu_ranges("3-x", None), set_of(&[3]));
    assert_eq!(parse_cpu_ranges("-3", None), CpuSet::new());
    assert_eq!(parse_cpu_ranges("3-5-7", None), set_of(&[3]));
    assert_eq!(parse_cpu_ranges("3 - 5", None), CpuSet::new());
    assert_eq!(parse_cpu_ranges("3- 5", None), set_of(&[3]));
}

#[test]
fn numbers_may_have_a_plus() {
    assert_eq!(parse_cpu_ranges("+3-+5", None), set_of(&[3, 4, 5]));
}

#[test]
fn largest_number_is_no_cpu() {
    let max = format!("{}", usize::MAX);
    assert_eq!(parse_cpu_ranges(&max, None), CpuSet::new());
    assert_eq!(parse_cpu_ranges(&format!("{}-5", max), None), CpuSet::new());
    assert_eq!(
        parse_cpu_ranges(&format!("1020-{}", max), None).to_range_string(),
        "1020-1023"
    );
    assert_eq!(
        parse_cpu_ranges(&format!("{}0", max), None),
        CpuSet::new()
    );
}

#[test]
fn unicode_space_around_parts_is_ignored() {
    assert_eq!(parse_cpu_ranges("\u{3000}4\u{a0},\t5\r", None), set_of(&[4, 5]));
}

#[test]
fn tier_names_are_exact() {
    let topo = topo_0_7();
    assert_eq!(parse_cpu_spec("E-core", &topo).count(), 0);
    assert_eq!(parse_cpu_spec(" hp-core ", &topo).to_range_string(), "4-7");
    // A tier is not restricted to the present CPUs.
    let mut odd = topo_0_7();
    odd.e_core.set(9);
    assert_eq!(parse_cpu_spec("e-core,9", &odd).to_range_string(), "0-1,9");
    assert_eq!(parse_cpu_spec("9", &odd).count(), 0);
}

#[test]
fn debug_text_holds_the_range_string() {
    assert_eq!(set_of(&[0, 1, 5]).debug_text(), "CpuSet(0-1,5)");
    assert_eq!(CpuSet::new().debug_text(), "CpuSet()");
}

#[test]
fn debug_prints_the_range_string() {
    let s = set_of(&[0, 1, 5]);
    assert_eq!(format!("{:?}", s), "CpuSet(0-1,5)");
    assert_eq!(format!("<{:?}>", CpuSet::new()), "<CpuSet()>");
    assert_eq!(format!("{:30?}", s), "CpuSet(0-1,5)");
    assert_eq!(format!("{:?} {:?}", s, Some(s)), "CpuSet(0-1,5) Some(CpuSet(0-1,5))");
}

#[test]
fn base_directory_can_be_chosen_once() {
    let mut base = BaseCpuset::new();
    assert_eq!(base_cpuset(&base), "/dev/cpuset/ThreadOpt");
    set_base_cpuset(&mut base, "");
    set_base_cpuset(&mut base, "a/b");
    assert_eq!(base_cpuset(&base), "/dev/cpuset/ThreadOpt");
    set_base_cpuset(&mut base, "Mine");
    assert_eq!(base_cpuset(&base), "/dev/cpuset/Mine");
    set_base_cpuset(&mut base, "Other");
    assert_eq!(base_cpuset(&base), "/dev/cpuset/Mine");
}

#[test]
fn cpuset_names() {
    assert!(valid_cpuset_name("ThreadOpt"));
    assert!(valid_cpuset_name("."));
    assert!(!valid_cpuset_name(""));
    assert!(!valid_cpuset_name("/"));
    assert!(!valid_cpuset_name("x/"));
}

#[test]
fn directory_of_a_set() {
    let mut topo = topo_0_7();
    let cpus = set_of(&[4, 5, 7]);
    assert!(cpuset_dir(&cpus, &topo, "/dev/cpuset/T").is_none());
    assert_eq!(ensure_cpuset_dir(&cpus, &topo, true), "");
    topo.cpuset_enabled = true;
    let dir = cpuset_dir(&cpus, &topo, "/dev/cpuset/T").unwrap();
    assert_eq!(dir.path, "/dev/cpuset/T/4-5,7");
    assert_eq!(dir.cpus, "4-5,7");
    assert_eq!(dir.mems, "0");
    assert_eq!(dir.cpus_path(), "/dev/cpuset/T/4-5,7/cpus");
    assert_eq!(dir.mems_path(), "/dev/cpuset/T/4-5,7/mems");
    assert_eq!(ensure_cpuset_dir(&cpus, &topo, true), "4-5,7");
    assert_eq!(ensure_cpuset_dir(&cpus, &topo, false), "");
}

fn make(outcomes: [DirOutcome; 5]) -> DirStep {
    let mut step = DirStep::MakeDir;
    for o in outcomes {
        step = create_cpuset_dir(step, o);
    }
    step
}

#[test]
fn directory_needs_every_step() {
    let done = DirOutcome::Done;
    assert_eq!(make([done; 5]), DirStep::Finished(true));
    assert_eq!(
        make([DirOutcome::AlreadyExists, done, done, done, done]),
        DirStep::Finished(true)
    );
    for k in 0..5 {
        let mut outcomes = [done; 5];
        outcomes[k] = DirOutcome::Failed;
        assert_eq!(make(outcomes), DirStep::Finished(false));
        if k > 0 {
            outcomes[k] = DirOutcome::AlreadyExists;
            assert_eq!(make(outcomes), DirStep::Finished(false));
        }
    }
}

#[test]
fn directory_steps_in_order() {
    let done = DirOutcome::Done;
    assert_eq!(create_cpuset_dir(DirStep::MakeDir, done), DirStep::SetMode);
    assert_eq!(create_cpuset_dir(DirStep::SetMode, done), DirStep::SetOwner);
    assert_eq!(create_cpuset_dir(DirStep::SetOwner, done), DirStep::WriteCpus);
    assert_eq!(create_cpuset_dir(DirStep::WriteCpus, done), DirStep::WriteMems);
    assert_eq!(
        create_cpuset_dir(DirStep::WriteMems, done),
        DirStep::Finished(true)
    );
    assert_eq!(
        create_cpuset_dir(DirStep::Finished(true), DirOutcome::Failed),
        DirStep::Finished(true)
    );
}

#[test]
fn topology_clone_keeps_everything() {
    let mut topo = topo_0_7();
    topo.cpuset_enabled = true;
    let copy = topo.clone();
    assert_eq!(copy.present_cpus, topo.present_cpus);
    assert_eq!(copy.present_str, "0-7");
    assert_eq!(copy.mems_str, "0");
    assert!(copy.cpuset_enabled);
    assert_eq!(copy.e_core, topo.e_core);
    assert_eq!(copy.p_core, topo.p_core);
    assert_eq!(copy.hp_core, topo.hp_core);
}

#[test]
fn spec_can_be_expanded() {
    let topo = topo_0_7();
    for spec in ["e-core,7", "hp-core", "1,3,5-6", "", "nothing"] {
        let set = parse_cpu_spec(spec, &topo);
        assert_eq!(parse_cpu_spec(&set.to_range_string(), &topo), set);
    }
}
