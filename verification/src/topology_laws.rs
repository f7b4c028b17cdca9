//! What holds of tiers and of the topology, in terms of frequencies and texts.

use vstd::prelude::*;

use crate::cpuset::CpuTopology;
use crate::number;
use crate::text;
use crate::topology;
use crate::topology::CpuPolicy;
use crate::topology::Tier;

verus! {

/// Whether a policy names a CPU: its number is one of the words of the policy's file.
pub open spec fn names_cpu(p: CpuPolicy, cpu: int) -> bool {
    p.related_cpus matches Some(t) && exists|i: int|
        0 <= i < text::spec_words(t@).len() && number::spec_parse_unsigned(
            #[trigger] text::spec_words(t@)[i],
            usize::MAX as nat,
        ) == Some(cpu as nat) && cpu >= 0
}

/// Whether an entry counts and has this top frequency: its name begins with `policy`, its
/// file for the frequency holds this number, which is not 0, and it names a CPU.
pub open spec fn runs_at(p: CpuPolicy, freq: nat) -> bool {
    &&& "policy"@.is_prefix_of(p.name@)
    &&& p.max_freq matches Some(t) && number::spec_parse_unsigned(
        text::spec_trim(t@),
        u64::MAX as nat,
    ) == Some(freq)
    &&& freq > 0
    &&& exists|cpu: int| names_cpu(p, cpu)
}

proof fn lemma_word_numbers(words: Seq<Seq<char>>, v: nat)
    ensures
        topology::word_numbers(words).contains(v) <==> exists|i: int|
            0 <= i < words.len() && number::spec_parse_unsigned(
                #[trigger] words[i],
                usize::MAX as nat,
            ) == Some(v),
    decreases words.len(),
{
    let max = usize::MAX as nat;
    let all = topology::word_numbers(words);
    if words.len() > 0 {
        let front = words.drop_last();
        let rest = topology::word_numbers(front);
        lemma_word_numbers(front, v);
        assert(words.last() == words[words.len() - 1]);
        if all.contains(v) {
            let k = choose|k: int| 0 <= k < all.len() && all[k] == v;
            if k < rest.len() {
                assert(rest[k] == v);
                let i = choose|i: int|
                    0 <= i < front.len() && number::spec_parse_unsigned(#[trigger] front[i], max)
                        == Some(v);
                assert(words[i] == front[i]);
            } else {
                assert(number::spec_parse_unsigned(words[words.len() - 1], max) == Some(v));
            }
        }
        if exists|i: int|
            0 <= i < words.len() && number::spec_parse_unsigned(#[trigger] words[i], max) == Some(
                v,
            ) {
            let i = choose|i: int|
                0 <= i < words.len() && number::spec_parse_unsigned(#[trigger] words[i], max)
                    == Some(v);
            if i < front.len() {
                assert(front[i] == words[i]);
                let k = choose|k: int| 0 <= k < rest.len() && rest[k] == v;
                assert(all[k] == v);
            } else {
                assert(all[rest.len() as int] == v);
            }
        }
    }
}

proof fn lemma_names(p: CpuPolicy, cpu: int)
    ensures
        names_cpu(p, cpu) <==> cpu >= 0 && topology::policy_cpus(p).contains(cpu as nat),
{
    if let Some(t) = p.related_cpus {
        lemma_word_numbers(text::spec_words(t@), cpu as nat);
    }
}

proof fn lemma_runs_at(p: CpuPolicy, freq: nat)
    ensures
        runs_at(p, freq) <==> topology::counts(p) && topology::policy_freq(p) == freq,
{
    let cpus = topology::policy_cpus(p);
    if exists|cpu: int| names_cpu(p, cpu) {
        let cpu = choose|cpu: int| names_cpu(p, cpu);
        lemma_names(p, cpu);
        assert(cpus.contains(cpu as nat));
    }
    if cpus.len() > 0 {
        assert(cpus.contains(cpus[0]));
        lemma_names(p, cpus[0] as int);
        assert(names_cpu(p, cpus[0] as int));
    }
}

proof fn lemma_extremes(policies: Seq<CpuPolicy>, freq: nat)
    ensures
        topology::is_lowest(policies, freq) <==> forall|j: int, g: nat|
            0 <= j < policies.len() && #[trigger] runs_at(policies[j], g) ==> freq <= g,
        topology::is_highest(policies, freq) <==> forall|j: int, g: nat|
            0 <= j < policies.len() && #[trigger] runs_at(policies[j], g) ==> g <= freq,
{
    assert forall|j: int, g: nat| 0 <= j < policies.len() implies #[trigger] runs_at(policies[j], g)
        == (topology::counts(policies[j]) && topology::policy_freq(policies[j]) == g) by {
        lemma_runs_at(policies[j], g);
    }
    let below = forall|j: int, g: nat|
        0 <= j < policies.len() && #[trigger] runs_at(policies[j], g) ==> freq <= g;
    let above = forall|j: int, g: nat|
        0 <= j < policies.len() && #[trigger] runs_at(policies[j], g) ==> g <= freq;
    if below {
        assert forall|k: int|
            0 <= k < policies.len() && topology::counts(#[trigger] policies[k]) implies freq
            <= topology::policy_freq(policies[k]) by {
            assert(runs_at(policies[k], topology::policy_freq(policies[k])));
        }
    }
    if above {
        assert forall|k: int|
            0 <= k < policies.len() && topology::counts(
                #[trigger] policies[k],
            ) implies topology::policy_freq(policies[k]) <= freq by {
            assert(runs_at(policies[k], topology::policy_freq(policies[k])));
        }
    }
}

/// Whether a policy with a lower top frequency counts.
pub open spec fn something_is_lower(policies: Seq<CpuPolicy>, freq: nat) -> bool {
    exists|j: int, g: nat| 0 <= j < policies.len() && #[trigger] runs_at(policies[j], g) && g < freq
}

/// Whether a policy with a higher top frequency counts.
pub open spec fn something_is_higher(policies: Seq<CpuPolicy>, freq: nat) -> bool {
    exists|j: int, g: nat| 0 <= j < policies.len() && #[trigger] runs_at(policies[j], g) && g > freq
}

proof fn lemma_tier(policies: Seq<CpuPolicy>, freq: nat)
    ensures
        topology::tier_of(policies, freq) == if !something_is_lower(policies, freq) {
            Tier::Efficiency
        } else if !something_is_higher(policies, freq) {
            Tier::HighPerformance
        } else {
            Tier::Performance
        },
{
    lemma_extremes(policies, freq);
    if topology::is_lowest(policies, freq) && something_is_lower(policies, freq) {
        let (j, g) = choose|j: int, g: nat|
            0 <= j < policies.len() && #[trigger] runs_at(policies[j], g) && g < freq;
        assert(freq <= g);
    }
    if topology::is_highest(policies, freq) && something_is_higher(policies, freq) {
        let (j, g) = choose|j: int, g: nat|
            0 <= j < policies.len() && #[trigger] runs_at(policies[j], g) && g > freq;
        assert(g <= freq);
    }
}

/// A policy puts its CPUs below 1024 into the efficiency tier if no top frequency is lower
/// than its own, into the high performance tier if one is lower and none is higher, and into
/// the performance tier if one is lower and one is higher.
pub proof fn law_policy_decides_tier(policies: Seq<CpuPolicy>, k: int, freq: nat, cpu: int)
    requires
        0 <= k < policies.len(),
        runs_at(policies[k], freq),
        names_cpu(policies[k], cpu),
        cpu < 1024,
    ensures
        !something_is_lower(policies, freq) ==> topology::tier_cpus(
            policies,
            Tier::Efficiency,
        ).contains(cpu),
        something_is_lower(policies, freq) && !something_is_higher(policies, freq)
            ==> topology::tier_cpus(policies, Tier::HighPerformance).contains(cpu),
        something_is_lower(policies, freq) && something_is_higher(policies, freq)
            ==> topology::tier_cpus(policies, Tier::Performance).contains(cpu),
{
    lemma_runs_at(policies[k], freq);
    lemma_names(policies[k], cpu);
    lemma_tier(policies, freq);
    let tier = topology::tier_of(policies, freq);
    assert(topology::names_in_tier(policies, tier, k, cpu));
    assert(topology::tier_cpus(policies, tier).contains(cpu));
}

/// A CPU is in a tier only if a policy that counts names it, and the top frequency of that
/// policy is the least of all in the efficiency tier, the greatest and not the least in the
/// high performance tier, and strictly between the two in the performance tier.
pub proof fn law_tier_has_a_policy(policies: Seq<CpuPolicy>, cpu: int)
    ensures
        topology::tier_cpus(policies, Tier::Efficiency).contains(cpu) ==> 0 <= cpu < 1024
            && exists|k: int, f: nat|
            0 <= k < policies.len() && #[trigger] runs_at(policies[k], f) && names_cpu(
                policies[k],
                cpu,
            ) && !something_is_lower(policies, f),
        topology::tier_cpus(policies, Tier::HighPerformance).contains(cpu) ==> 0 <= cpu < 1024
            && exists|k: int, f: nat|
            0 <= k < policies.len() && #[trigger] runs_at(policies[k], f) && names_cpu(
                policies[k],
                cpu,
            ) && something_is_lower(policies, f) && !something_is_higher(policies, f),
        topology::tier_cpus(policies, Tier::Performance).contains(cpu) ==> 0 <= cpu < 1024
            && exists|k: int, f: nat|
            0 <= k < policies.len() && #[trigger] runs_at(policies[k], f) && names_cpu(
                policies[k],
                cpu,
            ) && something_is_lower(policies, f) && something_is_higher(policies, f),
{
    if topology::tier_cpus(policies, Tier::Efficiency).contains(cpu) {
        lemma_tier_witness(policies, Tier::Efficiency, cpu);
    }
    if topology::tier_cpus(policies, Tier::HighPerformance).contains(cpu) {
        lemma_tier_witness(policies, Tier::HighPerformance, cpu);
    }
    if topology::tier_cpus(policies, Tier::Performance).contains(cpu) {
        lemma_tier_witness(policies, Tier::Performance, cpu);
    }
}

proof fn lemma_tier_witness(policies: Seq<CpuPolicy>, tier: Tier, cpu: int)
    requires
        topology::tier_cpus(policies, tier).contains(cpu),
    ensures
        0 <= cpu < 1024,
        exists|k: int, f: nat|
            0 <= k < policies.len() && #[trigger] runs_at(policies[k], f) && names_cpu(
                policies[k],
                cpu,
            ) && tier == if !something_is_lower(policies, f) {
                Tier::Efficiency
            } else if !something_is_higher(policies, f) {
                Tier::HighPerformance
            } else {
                Tier::Performance
            },
{
    let k = choose|k: int|
        0 <= k < policies.len() && #[trigger] topology::names_in_tier(policies, tier, k, cpu);
    let f = topology::policy_freq(policies[k]);
    lemma_runs_at(policies[k], f);
    lemma_names(policies[k], cpu);
    lemma_tier(policies, f);
    assert(runs_at(policies[k], f));
}

/// The list of present CPUs is what its file holds without the white space around it, and
/// the memory nodes likewise, but node 0 if that is nothing.
pub proof fn law_system_texts(content: Option<&str>)
    ensures
        content is None ==> topology::trimmed(content).len() == 0,
        content matches Some(t) ==> topology::trimmed(content) == text::spec_trim(t@),
        content is None ==> topology::memory_nodes(content) == "0"@,
        content matches Some(t) ==> topology::memory_nodes(content) == if text::spec_trim(t@).len()
            == 0 {
            "0"@
        } else {
            text::spec_trim(t@)
        },
{
}

/// Taking CPU set directories into use changes nothing else of the topology, and puts them
/// into use exactly if the system has them and the base directory could be made.
pub proof fn law_cpusets_in_use(topo: CpuTopology, cpuset_found: bool, created: bool)
    ensures
        ({
            let t = topology::with_cpusets(topo, cpuset_found, created);
            &&& t.cpuset_enabled <==> cpuset_found && created
            &&& t.present_cpus == topo.present_cpus
            &&& t.present_str == topo.present_str
            &&& t.mems_str == topo.mems_str
            &&& t.e_core == topo.e_core
            &&& t.p_core == topo.p_core
            &&& t.hp_core == topo.hp_core
        }),
{
}

} // verus!
