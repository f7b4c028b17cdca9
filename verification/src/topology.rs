//! Finding out the topology of a device from what its system files hold.

use vstd::prelude::*;

use crate::cpuset;
use crate::cpuset::CpuSet;
use crate::cpuset::CpuTopology;
use crate::cpuset::CpusetDir;
use crate::number;
use crate::text;

verus! {

// ---------------------------------------------------------------------------
// Core tiers
// ---------------------------------------------------------------------------
/// An entry of the frequency policy directory: its name, and what its files for
/// the top frequency and for the CPUs hold, if they can be read.
pub struct CpuPolicy {
    pub name: String,
    pub max_freq: Option<String>,
    pub related_cpus: Option<String>,
}

/// The CPU numbers among words. Words that are no numbers are left out.
pub open spec fn word_numbers(words: Seq<Seq<char>>) -> Seq<nat>
    decreases words.len(),
{
    if words.len() == 0 {
        Seq::empty()
    } else {
        let rest = word_numbers(words.drop_last());
        match number::spec_parse_unsigned(words.last(), usize::MAX as nat) {
            Some(v) => rest.push(v),
            None => rest,
        }
    }
}

/// The top frequency of a policy; 0 if it is unknown.
pub open spec fn policy_freq(p: CpuPolicy) -> nat {
    match p.max_freq {
        Some(t) => match number::spec_parse_unsigned(text::spec_trim(t@), u64::MAX as nat) {
            Some(v) => v,
            None => 0,
        },
        None => 0,
    }
}

/// The CPUs of a policy.
pub open spec fn policy_cpus(p: CpuPolicy) -> Seq<nat> {
    match p.related_cpus {
        Some(t) => word_numbers(text::spec_words(t@)),
        None => Seq::empty(),
    }
}

/// Whether an entry is a policy of known frequency that names CPUs.
pub open spec fn counts(p: CpuPolicy) -> bool {
    "policy"@.is_prefix_of(p.name@) && policy_freq(p) > 0 && policy_cpus(p).len() > 0
}

/// Whether no policy has a lower top frequency than `freq`.
pub open spec fn is_lowest(policies: Seq<CpuPolicy>, freq: nat) -> bool {
    forall|k: int|
        0 <= k < policies.len() && counts(#[trigger] policies[k]) ==> freq <= policy_freq(
            policies[k],
        )
}

/// Whether no policy has a higher top frequency than `freq`.
pub open spec fn is_highest(policies: Seq<CpuPolicy>, freq: nat) -> bool {
    forall|k: int|
        0 <= k < policies.len() && counts(#[trigger] policies[k]) ==> policy_freq(policies[k])
            <= freq
}

/// The tiers of CPUs.
#[derive(Clone, Copy, Debug, PartialEq, Eq, Structural)]
pub enum Tier {
    Efficiency,
    Performance,
    HighPerformance,
}

/// The tier of the policies of a top frequency: the lowest is the efficiency tier,
/// the highest, if it is another, the high performance tier, and what is between
/// them the performance tier.
pub open spec fn tier_of(policies: Seq<CpuPolicy>, freq: nat) -> Tier {
    if is_lowest(policies, freq) {
        Tier::Efficiency
    } else if is_highest(policies, freq) {
        Tier::HighPerformance
    } else {
        Tier::Performance
    }
}

/// Whether policy `k` counts, is in the tier, and names `cpu`.
pub open spec fn names_in_tier(policies: Seq<CpuPolicy>, tier: Tier, k: int, cpu: int) -> bool {
    &&& counts(policies[k])
    &&& tier_of(policies, policy_freq(policies[k])) == tier
    &&& cpu >= 0 && policy_cpus(policies[k]).contains(cpu as nat)
}

/// The CPUs of a tier.
pub open spec fn tier_cpus(policies: Seq<CpuPolicy>, tier: Tier) -> Set<int> {
    Set::new(
        |cpu: int|
            0 <= cpu < cpuset::CPU_SETSIZE && exists|k: int|
                0 <= k < policies.len() && #[trigger] names_in_tier(policies, tier, k, cpu),
    )
}

fn read_policy_freq(p: &CpuPolicy) -> (r: u64)
    ensures
        r == policy_freq(*p),
{
    match &p.max_freq {
        Some(t) => match number::parse_u64(text::trim(t.as_str())) {
            Some(v) => v,
            None => 0,
        },
        None => 0,
    }
}

/// The numbers of a list.
spec fn numbers(v: Seq<usize>) -> Seq<nat> {
    v.map_values(|n: usize| n as nat)
}

fn read_policy_cpus(p: &CpuPolicy) -> (r: Vec<usize>)
    ensures
        numbers(r@) == policy_cpus(*p),
{
    let mut found: Vec<usize> = Vec::new();
    assert(numbers(found@) =~= Seq::<nat>::empty());
    if let Some(t) = &p.related_cpus {
        let words = text::words(t.as_str());
        let ghost all = text::spec_words(t@);
        let mut i: usize = 0;
        assert(all.take(0) =~= Seq::<Seq<char>>::empty());
        while i < words.len()
            invariant
                i <= words@.len(),
                text::slices(words@) == all,
                numbers(found@) == word_numbers(all.take(i as int)),
            decreases words.len() - i,
        {
            proof {
                assert(all[i as int] == words@[i as int]@);
                assert(all.take(i + 1).drop_last() =~= all.take(i as int));
                assert(all.take(i + 1).last() == all[i as int]);
            }
            if let Some(v) = number::parse_usize(words[i]) {
                let ghost before_found = found@;
                found.push(v);
                assert(numbers(found@) =~= numbers(before_found).push(v as nat));
            }
            i = i + 1;
        }
        assert(all.take(all.len() as int) =~= all);
    }
    found
}

fn policy_counts(p: &CpuPolicy) -> (r: bool)
    ensures
        r == counts(*p),
{
    text::starts_with(p.name.as_str(), "policy") && read_policy_freq(p) > 0 && {
        let cpus = read_policy_cpus(p);
        assert(numbers(cpus@).len() == cpus@.len());
        cpus.len() > 0
    }
}

/// Whether a policy that counts has this top frequency.
spec fn has_freq(policies: Seq<CpuPolicy>, freq: nat) -> bool {
    exists|k: int|
        0 <= k < policies.len() && counts(#[trigger] policies[k]) && policy_freq(policies[k])
            == freq
}

/// Whether `low` and `high` are the lowest and the highest top frequency, if any policy
/// counts.
spec fn tells_tiers(policies: Seq<CpuPolicy>, low: u64, high: u64) -> bool {
    forall|freq: nat| #[trigger]
        has_freq(policies, freq) ==> is_lowest(policies, freq) == (freq == low) && is_highest(
            policies,
            freq,
        ) == (freq == high)
}

/// The lowest and the highest top frequency of the policies that count.
fn freq_bounds(policies: &Vec<CpuPolicy>) -> (r: (u64, u64))
    ensures
        forall|k: int|
            0 <= k < policies@.len() && counts(#[trigger] policies@[k]) ==> r.0 <= policy_freq(
                policies@[k],
            ) <= r.1,
        tells_tiers(policies@, r.0, r.1),
{
    let mut low: u64 = 0;
    let mut high: u64 = 0;
    let mut seen: bool = false;
    let ghost mut at_low: int = 0;
    let ghost mut at_high: int = 0;
    let mut i: usize = 0;
    while i < policies.len()
        invariant
            i <= policies@.len(),
            seen == exists|k: int| 0 <= k < i && counts(#[trigger] policies@[k]),
            forall|k: int|
                0 <= k < i && counts(#[trigger] policies@[k]) ==> low <= policy_freq(
                    policies@[k],
                ) <= high,
            seen ==> 0 <= at_low < i && counts(policies@[at_low]) && policy_freq(
                policies@[at_low],
            ) == low,
            seen ==> 0 <= at_high < i && counts(policies@[at_high]) && policy_freq(
                policies@[at_high],
            ) == high,
        decreases policies.len() - i,
    {
        if policy_counts(&policies[i]) {
            let freq: u64 = read_policy_freq(&policies[i]);
            if !seen || freq < low {
                low = freq;
                proof {
                    at_low = i as int;
                }
            }
            if !seen || freq > high {
                high = freq;
                proof {
                    at_high = i as int;
                }
            }
            seen = true;
        }
        i = i + 1;
    }
    (low, high)
}

/// Sorts the CPUs of the device into tiers by the top frequencies of their policies.
pub fn detect_core_types(policies: &Vec<CpuPolicy>) -> (r: (CpuSet, CpuSet, CpuSet))
    ensures
        r.0@ == tier_cpus(policies@, Tier::Efficiency),
        r.1@ == tier_cpus(policies@, Tier::Performance),
        r.2@ == tier_cpus(policies@, Tier::HighPerformance),
{
    let (low, high) = freq_bounds(policies);
    let e = collect_tier(policies, Tier::Efficiency, low, high);
    let p = collect_tier(policies, Tier::Performance, low, high);
    let h = collect_tier(policies, Tier::HighPerformance, low, high);
    (e, p, h)
}

/// Collects the CPUs of one tier.
fn collect_tier(policies: &Vec<CpuPolicy>, tier: Tier, low: u64, high: u64) -> (r: CpuSet)
    requires
        tells_tiers(policies@, low, high),
    ensures
        r@ == tier_cpus(policies@, tier),
{
    let mut set = CpuSet::new();
    let mut i: usize = 0;
    while i < policies.len()
        invariant
            i <= policies@.len(),
            tells_tiers(policies@, low, high),
            forall|cpu: int| #[trigger]
                set@.contains(cpu) <==> 0 <= cpu < cpuset::CPU_SETSIZE && exists|k: int|
                    0 <= k < i && #[trigger] names_in_tier(policies@, tier, k, cpu),
        decreases policies.len() - i,
    {
        let p = &policies[i];
        let ghost before_set = set@;
        let mut taken: bool = false;
        if policy_counts(p) {
            let freq: u64 = read_policy_freq(p);
            let here = if freq == low {
                Tier::Efficiency
            } else if freq == high {
                Tier::HighPerformance
            } else {
                Tier::Performance
            };
            assert(here == tier_of(policies@, policy_freq(policies@[i as int]))) by {
                assert(has_freq(policies@, freq as nat));
                assert(is_lowest(policies@, freq as nat) == (freq == low));
                assert(is_highest(policies@, freq as nat) == (freq == high));
            }
            if here == tier {
                taken = true;
                let cpus = read_policy_cpus(p);
                let ghost named = policy_cpus(*p);
                let mut j: usize = 0;
                while j < cpus.len()
                    invariant
                        j <= cpus@.len(),
                        numbers(cpus@) == named,
                        forall|cpu: int| #[trigger]
                            set@.contains(cpu) <==> before_set.contains(cpu) || (0 <= cpu
                                < cpuset::CPU_SETSIZE && exists|m: int|
                                0 <= m < j && #[trigger] named[m] == cpu),
                    decreases cpus.len() - j,
                {
                    let ghost inner = set@;
                    assert(named[j as int] == cpus@[j as int]);
                    set.set(cpus[j]);
                    proof {
                        assert forall|cpu: int| #[trigger] set@.contains(cpu) <==> before_set.contains(
                            cpu,
                        ) || (0 <= cpu < cpuset::CPU_SETSIZE && exists|m: int|
                            0 <= m < j + 1 && #[trigger] named[m] == cpu) by {
                            if cpu == cpus@[j as int] {
                                assert(named[j as int] == cpu);
                            } else {
                                assert(set@.contains(cpu) == inner.contains(cpu));
                                if exists|m: int| 0 <= m < j + 1 && #[trigger] named[m] == cpu {
                                    let m = choose|m: int|
                                        0 <= m < j + 1 && #[trigger] named[m] == cpu;
                                    assert(m < j);
                                }
                            }
                        }
                    }
                    j = j + 1;
                }
                proof {
                    assert forall|cpu: int| cpu >= 0 implies ((exists|m: int|
                        0 <= m < named.len() && #[trigger] named[m] == cpu) <==> #[trigger] named.contains(
                        cpu as nat,
                    )) by {}
                }
            }
        }
        proof {
            let k0 = i as int;
            assert forall|cpu: int| #[trigger] set@.contains(cpu) <==> 0 <= cpu
                < cpuset::CPU_SETSIZE && exists|k: int|
                0 <= k < i + 1 && #[trigger] names_in_tier(policies@, tier, k, cpu) by {
                if names_in_tier(policies@, tier, k0, cpu) {
                    assert(taken);
                    assert(policy_cpus(policies@[k0]).contains(cpu as nat));
                } else {
                    if exists|k: int|
                        0 <= k < i + 1 && #[trigger] names_in_tier(policies@, tier, k, cpu) {
                        let k = choose|k: int|
                            0 <= k < i + 1 && #[trigger] names_in_tier(policies@, tier, k, cpu);
                        assert(k < i);
                    }
                    if 0 <= cpu {
                        assert(taken ==> !policy_cpus(policies@[k0]).contains(cpu as nat));
                    }
                }
            }
        }
        i = i + 1;
    }
    assert(set@ =~= tier_cpus(policies@, tier));
    set
}

// ---------------------------------------------------------------------------
// Topology
// ---------------------------------------------------------------------------
/// A file's content without the white space around it; empty if there is none.
pub open spec fn trimmed(content: Option<&str>) -> Seq<char> {
    match content {
        Some(t) => text::spec_trim(t@),
        None => Seq::empty(),
    }
}

/// The memory nodes for CPU set directories: what the system lists, or node 0.
pub open spec fn memory_nodes(mems: Option<&str>) -> Seq<char> {
    if trimmed(mems).len() == 0 {
        "0"@
    } else {
        trimmed(mems)
    }
}

/// Finds out the topology from the list of present CPUs, the frequency policies,
/// whether the system has CPU set directories, and the memory nodes that they list.
/// CPU set directories are not in use yet.
pub fn init_cpu_topo(
    present: Option<&str>,
    policies: &Vec<CpuPolicy>,
    cpuset_found: bool,
    mems: Option<&str>,
) -> (r: CpuTopology)
    ensures
        r.present_str@ == trimmed(present),
        r.present_cpus@ == cpuset::spec_parse_cpu_ranges(trimmed(present), None),
        r.e_core@ == tier_cpus(policies@, Tier::Efficiency),
        r.p_core@ == tier_cpus(policies@, Tier::Performance),
        r.hp_core@ == tier_cpus(policies@, Tier::HighPerformance),
        r.mems_str@ == if cpuset_found {
            memory_nodes(mems)
        } else {
            Seq::empty()
        },
        !r.cpuset_enabled,
{
    let present_str = match present {
        Some(t) => text::trim(t).to_owned(),
        None => String::new(),
    };
    let present_cpus = cpuset::parse_cpu_ranges(present_str.as_str(), None);
    let (e_core, p_core, hp_core) = detect_core_types(policies);
    let mut mems_str = String::new();
    if cpuset_found {
        if let Some(t) = mems {
            mems_str = text::trim(t).to_owned();
        }
        if mems_str.as_str().is_empty() {
            mems_str = "0".to_owned();
        }
    }
    CpuTopology {
        present_cpus,
        present_str,
        mems_str,
        cpuset_enabled: false,
        e_core,
        p_core,
        hp_core,
    }
}

/// The base directory for CPU set directories that is to be made, with all present CPUs
/// in it. There is none if the system has no CPU set directories.
pub fn wanted_base_dir(topo: &CpuTopology, cpuset_found: bool, base: &str) -> (r: Option<
    CpusetDir,
>)
    ensures
        r is Some == cpuset_found,
        r matches Some(d) ==> {
            &&& d.path@ == base@
            &&& d.cpus@ == topo.present_str@
            &&& d.mems@ == topo.mems_str@
        },
{
    if cpuset_found {
        Some(
            CpusetDir {
                path: base.to_owned(),
                cpus: topo.present_str.clone(),
                mems: topo.mems_str.clone(),
            },
        )
    } else {
        None
    }
}

/// A topology with CPU set directories in use exactly if the system has them and the
/// base directory could be made.
pub open spec fn with_cpusets(topo: CpuTopology, cpuset_found: bool, created: bool) -> CpuTopology {
    CpuTopology { cpuset_enabled: cpuset_found && created, ..topo }
}

/// Takes CPU set directories into use if the system has them and the base directory
/// could be made. `created` has no influence if no base directory was wanted.
pub fn enable_cpuset(topo: &mut CpuTopology, cpuset_found: bool, created: bool)
    ensures
        *final(topo) == with_cpusets(*old(topo), cpuset_found, created),
{
    topo.cpuset_enabled = cpuset_found && created;
}

// ---------------------------------------------------------------------------
// What holds of tiers
// ---------------------------------------------------------------------------
/// Every CPU of a policy that counts is in a tier, and every CPU of a tier is in
/// such a policy.
pub proof fn law_tiers_cover_policies(policies: Seq<CpuPolicy>, cpu: int)
    requires
        0 <= cpu < cpuset::CPU_SETSIZE,
    ensures
        (exists|k: int|
            0 <= k < policies.len() && counts(#[trigger] policies[k]) && policy_cpus(
                policies[k],
            ).contains(cpu as nat)) <==> (tier_cpus(policies, Tier::Efficiency).contains(cpu)
            || tier_cpus(policies, Tier::Performance).contains(cpu) || tier_cpus(
            policies,
            Tier::HighPerformance,
        ).contains(cpu)),
{
    if exists|k: int|
        0 <= k < policies.len() && counts(#[trigger] policies[k]) && policy_cpus(
            policies[k],
        ).contains(cpu as nat) {
        let k = choose|k: int|
            0 <= k < policies.len() && counts(#[trigger] policies[k]) && policy_cpus(
                policies[k],
            ).contains(cpu as nat);
        let tier = tier_of(policies, policy_freq(policies[k]));
        assert(names_in_tier(policies, tier, k, cpu));
    }
}

/// With at most two different top frequencies, the performance tier is empty.
pub proof fn law_two_clusters_have_no_middle(policies: Seq<CpuPolicy>, low: nat, high: nat)
    requires
        low <= high,
        forall|k: int|
            0 <= k < policies.len() && counts(#[trigger] policies[k]) ==> policy_freq(policies[k])
                == low || policy_freq(policies[k]) == high,
    ensures
        tier_cpus(policies, Tier::Performance) == Set::<int>::empty(),
{
    assert forall|k: int, cpu: int| 0 <= k < policies.len() implies !#[trigger] names_in_tier(
        policies,
        Tier::Performance,
        k,
        cpu,
    ) by {
        if counts(policies[k]) {
            if policy_freq(policies[k]) == low {
                assert(is_lowest(policies, low));
            } else {
                assert(is_highest(policies, high));
            }
        }
    }
    assert(tier_cpus(policies, Tier::Performance) =~= Set::<int>::empty());
}

/// With a single top frequency, all CPUs are in the efficiency tier.
pub proof fn law_one_cluster_is_efficiency(policies: Seq<CpuPolicy>, freq: nat)
    requires
        forall|k: int|
            0 <= k < policies.len() && counts(#[trigger] policies[k]) ==> policy_freq(policies[k])
                == freq,
    ensures
        tier_cpus(policies, Tier::Performance) == Set::<int>::empty(),
        tier_cpus(policies, Tier::HighPerformance) == Set::<int>::empty(),
{
    assert(is_lowest(policies, freq));
    assert(tier_cpus(policies, Tier::Performance) =~= Set::<int>::empty());
    assert(tier_cpus(policies, Tier::HighPerformance) =~= Set::<int>::empty());
}

} // verus!
