//! What holds from a configuration file to the binding of a thread.

use vstd::prelude::*;

use crate::config;
use crate::config::AppConfig;
use crate::config::Context;
use crate::config::RuleText;
use crate::config_laws;
use crate::cpuset;
use crate::cpuset::CpuTopology;
use crate::rule_match;
use crate::rule_match::AffinityView;
use crate::rule_match_laws;
use crate::text;
use crate::topology;

verus! {

/// What a thread is to be bound to under a configuration.
pub open spec fn binding(
    cfg: AppConfig,
    pkg: Seq<char>,
    thread: Seq<char>,
    created: bool,
) -> Option<AffinityView> {
    rule_match::settled(rule_match::planned(cfg.rules@, pkg, thread), pkg, cfg, created)
}

proof fn lemma_loaded_rule(
    cfg: AppConfig,
    file: Seq<char>,
    content: Seq<char>,
    topo: CpuTopology,
    k: int,
)
    requires
        config::is_loaded_from(cfg, file, content, topo),
        0 <= k < config::file_rules(content, topo).len(),
    ensures
        cfg.rules@[k].pkg@ == config::file_rules(content, topo)[k].pkg,
        cfg.rules@[k].thread@ == config::file_rules(content, topo)[k].thread,
        cfg.rules@[k].thread_pattern@ == cfg.rules@[k].thread@,
        cfg.rules@[k].cpus@ == config::file_rules(content, topo)[k].cpus,
        cfg.rules@[k].cpus@ != Set::<int>::empty(),
{
    let rule = config::file_rules(content, topo)[k];
    config_laws::law_rules_are_sound(text::spec_split(content, '\n'), topo);
    assert(config_laws::is_sound_rule(rule, topo));
    assert(cfg.rules@[k]@.pkg == rule.pkg);
}

proof fn lemma_member(s: Set<int>)
    requires
        s != Set::<int>::empty(),
    ensures
        exists|cpu: int| s.contains(cpu),
{
    if forall|cpu: int| !s.contains(cpu) {
        assert(s =~= Set::<int>::empty());
    }
}

/// A thread that a thread rule of the file matches is bound by thread rules, and to
/// all CPUs of that rule at least.
pub proof fn law_loaded_thread_rule_binds(
    cfg: AppConfig,
    file: Seq<char>,
    content: Seq<char>,
    topo: CpuTopology,
    k: int,
    thread: Seq<char>,
    created: bool,
)
    requires
        config::is_loaded_from(cfg, file, content, topo),
        0 <= k < config::file_rules(content, topo).len(),
        config::file_rules(content, topo)[k].thread.len() > 0,
        thread.len() > 0,
        rule_match::spec_fnmatch(config::file_rules(content, topo)[k].thread, thread),
    ensures
        ({
            let rule = config::file_rules(content, topo)[k];
            binding(cfg, rule.pkg, thread, created) matches Some(r) && r.is_thread_rule
                && rule.cpus.subset_of(r.cpus)
        }),
{
    let rule = config::file_rules(content, topo)[k];
    lemma_loaded_rule(cfg, file, content, topo, k);
    lemma_member(rule.cpus);
    let cpu = choose|cpu: int| rule.cpus.contains(cpu);
    rule_match_laws::law_thread_rules_win(rule.pkg, thread, cfg, created, k, cpu);
    assert forall|c: int| rule.cpus.contains(c) implies rule_match::thread_cpus(
        cfg.rules@,
        rule.pkg,
        thread,
    ).contains(c) by {
        assert(rule_match::is_thread_match(cfg.rules@[k], rule.pkg, thread));
    }
}

/// A thread that no thread rule matches is bound by the rules for its whole package,
/// and to all CPUs of each of them.
pub proof fn law_loaded_package_rule_binds(
    cfg: AppConfig,
    file: Seq<char>,
    content: Seq<char>,
    topo: CpuTopology,
    k: int,
    thread: Seq<char>,
    created: bool,
)
    requires
        config::is_loaded_from(cfg, file, content, topo),
        0 <= k < config::file_rules(content, topo).len(),
        config::file_rules(content, topo)[k].thread.len() == 0,
        !rule_match::thread_matched(cfg.rules@, config::file_rules(content, topo)[k].pkg, thread),
    ensures
        ({
            let rule = config::file_rules(content, topo)[k];
            binding(cfg, rule.pkg, thread, created) matches Some(r) && !r.is_thread_rule
                && rule.cpus.subset_of(r.cpus)
        }),
{
    let rule = config::file_rules(content, topo)[k];
    lemma_loaded_rule(cfg, file, content, topo, k);
    lemma_member(rule.cpus);
    let cpu = choose|cpu: int| rule.cpus.contains(cpu);
    rule_match_laws::law_package_rules_are_fallback(rule.pkg, thread, cfg, created, k, cpu);
    assert forall|c: int| rule.cpus.contains(c) implies rule_match::package_cpus(
        cfg.rules@,
        rule.pkg,
    ).contains(c) by {
        assert(rule_match::is_package_rule(cfg.rules@[k], rule.pkg));
    }
}

/// A thread of a package that is not among those of the configuration is left alone.
pub proof fn law_other_packages_are_left_alone(
    cfg: AppConfig,
    pkg: Seq<char>,
    thread: Seq<char>,
    created: bool,
)
    requires
        cfg.wf(),
        !text::texts(cfg.pkgs@).contains(pkg),
    ensures
        binding(cfg, pkg, thread, created) is None,
{
    let rules = config::rules_view(cfg.rules@);
    config_laws::law_packages_are_those_of_rules(rules, false);
    config_laws::law_packages_are_those_of_rules(rules, true);
    assert forall|k: int| 0 <= k < cfg.rules@.len() implies (#[trigger] cfg.rules@[k]).pkg@
        != pkg by {
        assert(rules[k].pkg == cfg.rules@[k].pkg@);
    }
    if text::texts(cfg.has_thread_rules@).contains(pkg) {
        let k = choose|k: int|
            0 <= k < rules.len() && (#[trigger] rules[k]).pkg == pkg && rules[k].thread.len() > 0;
        assert(rules[k].pkg == pkg);
    }
    rule_match_laws::law_no_rule_no_affinity(pkg, thread, cfg, created);
}

/// CPU set directories are in use exactly if the system has them and the base directory
/// could be made. Where they are not in use, no thread goes to one, whatever the file
/// holds.
pub proof fn law_directories_need_cpusets(
    detected: CpuTopology,
    cpuset_found: bool,
    base_created: bool,
    cfg: AppConfig,
    file: Seq<char>,
    content: Seq<char>,
    pkg: Seq<char>,
    thread: Seq<char>,
    created: bool,
)
    requires
        config::is_loaded_from(
            cfg,
            file,
            content,
            topology::with_cpusets(detected, cpuset_found, base_created),
        ),
    ensures
        topology::with_cpusets(detected, cpuset_found, base_created).cpuset_enabled == (cpuset_found
            && base_created),
        !(cpuset_found && base_created) ==> (binding(cfg, pkg, thread, created) matches Some(r)
            ==> r.cpuset_dir.len() == 0),
{
    let topo = topology::with_cpusets(detected, cpuset_found, base_created);
    if !topo.cpuset_enabled {
        let rules = cfg.rules@;
        let of_package = rule_match::package_rules(rules, pkg);
        if of_package.len() == 1 {
            let is_one = |rule: config::AffinityRule| rule_match::is_package_rule(rule, pkg);
            rule_match_laws::lemma_filter_members(rules, is_one, of_package[0]);
            assert(of_package.contains(of_package[0]));
            let k = choose|k: int| 0 <= k < rules.len() && rules[k] == of_package[0];
            config_laws::law_rules_are_sound(text::spec_split(content, '\n'), topo);
            let rule = config::file_rules(content, topo)[k];
            assert(config_laws::is_sound_rule(rule, topo));
            assert(rules[k]@ == (config::RuleView { cpuset_dir: rules[k].cpuset_dir@, ..rule }));
        }
    }
}

/// Under a file that consists of the line `pkg=cpus`, every thread of the package is
/// bound to what `cpus` stands for, and goes to the directory that the rule has, which
/// is that of these CPUs if there is one.
pub proof fn law_package_line_binds(
    cfg: AppConfig,
    file: Seq<char>,
    topo: CpuTopology,
    pkg: Seq<char>,
    cpus: Seq<char>,
    thread: Seq<char>,
    created: bool,
)
    requires
        config_laws::is_plain(pkg),
        config_laws::is_no_comment(pkg),
        text::spec_trim(cpus) == cpus,
        cpus.len() > 0,
        text::index_of(cpus, '{') is None,
        text::index_of(pkg, '\n') is None,
        text::index_of(cpus, '\n') is None,
        config::is_usable(RuleText { pkg, thread: Seq::empty(), cpus }, topo),
        config::is_loaded_from(cfg, file, pkg.push('=') + cpus, topo),
    ensures
        ({
            let set = cpuset::spec_parse_cpu_spec(cpus, topo);
            binding(cfg, pkg, thread, created) == Some(
                AffinityView {
                    cpus: set,
                    cpuset_dir: cfg.rules@[0].cpuset_dir@,
                    is_thread_rule: false,
                },
            )
        }),
        cfg.rules@[0].cpuset_dir@.len() > 0 ==> cfg.rules@[0].cpuset_dir@ == cpuset::range_string(
            cpuset::spec_parse_cpu_spec(cpus, topo),
        ),
{
    let line = pkg.push('=') + cpus;
    let set = cpuset::spec_parse_cpu_spec(cpus, topo);
    text::lemma_first_of(pkg, '\n', '\n');
    text::lemma_first_of(cpus, '\n', '\n');
    assert forall|k: int| 0 <= k < line.len() implies #[trigger] line[k] != '\n' by {
        if k < pkg.len() {
            assert(line[k] == pkg[k]);
        } else if k > pkg.len() {
            assert(line[k] == cpus[k - pkg.len() - 1]);
        }
    }
    config_laws::law_package_line(pkg, cpus);
    lemma_single_line(cfg, file, topo, line, RuleText { pkg, thread: Seq::empty(), cpus });
    let rules = cfg.rules@;
    let only = rules[0];
    assert(rules.drop_last() =~= Seq::<config::AffinityRule>::empty());
    assert(rule_match::package_rules(rules, pkg) =~= seq![only]) by {
        reveal(Seq::filter);
        let f = |rule: config::AffinityRule| rule_match::is_package_rule(rule, pkg);
        assert(rules.drop_last().filter(f) =~= Seq::<config::AffinityRule>::empty());
        assert(f(only));
    }
    assert(rule_match::package_cpus(rules, pkg) =~= set) by {
        assert(rule_match::is_package_rule(rules[0], pkg));
    }
}

/// Under a file that consists of the line `pkg{pattern}=cpus`, a thread of the
/// package is bound to what `cpus` stands for if the pattern matches its name, and to
/// all present CPUs otherwise.
pub proof fn law_compact_line_binds(
    cfg: AppConfig,
    file: Seq<char>,
    topo: CpuTopology,
    pkg: Seq<char>,
    pattern: Seq<char>,
    cpus: Seq<char>,
    thread: Seq<char>,
    created: bool,
)
    requires
        config_laws::is_plain(pkg),
        config_laws::is_no_comment(pkg),
        config_laws::is_plain(pattern),
        pattern.len() > 0,
        text::spec_trim(cpus) == cpus,
        text::index_of(cpus, '{') is None,
        text::index_of(pkg, '\n') is None,
        text::index_of(pattern, '\n') is None,
        text::index_of(cpus, '\n') is None,
        config::is_usable(RuleText { pkg, thread: pattern, cpus }, topo),
        config::is_loaded_from(
            cfg,
            file,
            pkg.push('{') + pattern.push('}').push('=') + cpus,
            topo,
        ),
    ensures
        ({
            let set = cpuset::spec_parse_cpu_spec(cpus, topo);
            binding(cfg, pkg, thread, created) == Some(
                if thread.len() > 0 && rule_match::spec_fnmatch(pattern, thread) {
                    AffinityView {
                        cpus: set,
                        cpuset_dir: cpuset::ensured_dir(set, topo, created),
                        is_thread_rule: true,
                    }
                } else {
                    AffinityView {
                        cpus: topo.present_cpus@,
                        cpuset_dir: Seq::empty(),
                        is_thread_rule: false,
                    }
                },
            )
        }),
{
    let line = pkg.push('{') + pattern.push('}').push('=') + cpus;
    let set = cpuset::spec_parse_cpu_spec(cpus, topo);
    text::lemma_first_of(pkg, '\n', '\n');
    text::lemma_first_of(pattern, '\n', '\n');
    text::lemma_first_of(cpus, '\n', '\n');
    let (n, m) = (pkg.len() as int, pattern.len() as int);
    assert forall|k: int| 0 <= k < line.len() implies #[trigger] line[k] != '\n' by {
        if k < n {
            assert(line[k] == pkg[k]);
        } else if n < k <= n + m {
            assert(line[k] == pattern[k - n - 1]);
        } else if k > n + m + 2 {
            assert(line[k] == cpus[k - n - m - 3]);
        }
    }
    config_laws::law_compact_line(pkg, pattern, cpus);
    lemma_single_line(cfg, file, topo, line, RuleText { pkg, thread: pattern, cpus });
    let rules = cfg.rules@;
    config_laws::law_packages_are_those_of_rules(config::rules_view(rules), true);
    assert(config::rules_view(rules)[0].pkg == pkg);
    assert(text::texts(cfg.has_thread_rules@).contains(pkg));
    if thread.len() > 0 && rule_match::spec_fnmatch(pattern, thread) {
        assert(rule_match::is_thread_match(rules[0], pkg, thread));
        assert(rule_match::thread_cpus(rules, pkg, thread) =~= set);
    } else {
        assert(rule_match::package_cpus(rules, pkg) =~= Set::<int>::empty());
    }
}

/// A file of one line that is a usable rule gives that rule alone.
proof fn lemma_single_line(
    cfg: AppConfig,
    file: Seq<char>,
    topo: CpuTopology,
    line: Seq<char>,
    rule: RuleText,
)
    requires
        forall|k: int| 0 <= k < line.len() ==> #[trigger] line[k] != '\n',
        config::line_effect(Context::Idle, text::spec_trim(line)).rule == Some(rule),
        config::is_usable(rule, topo),
        config::is_loaded_from(cfg, file, line, topo),
    ensures
        cfg.rules@.len() == 1,
        cfg.rules@[0].pkg@ == rule.pkg,
        cfg.rules@[0].thread@ == rule.thread,
        cfg.rules@[0].thread_pattern@ == rule.thread,
        cfg.rules@[0].cpus@ == cpuset::spec_parse_cpu_spec(rule.cpus, topo),
        cfg.rules@[0].cpuset_dir@.len() > 0 ==> cfg.rules@[0].cpuset_dir@ == config::usable_rule(
            rule,
            topo,
        ).cpuset_dir,
{
    text::lemma_split_none(line, '\n');
    let lines = seq![line];
    assert(lines.drop_last() =~= Seq::<Seq<char>>::empty());
    let start = config::nothing_read();
    assert(config::read_lines(start, lines.drop_last(), topo) == start);
    assert(config::read_lines(start, lines, topo) == config::read_line(start, line, topo));
    assert(config::file_rules(line, topo) =~= seq![config::usable_rule(rule, topo)]);
    assert(cfg.rules@[0]@.pkg == rule.pkg);
}

} // verus!
