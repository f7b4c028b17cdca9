//! What holds of CPU lists, CPU specifications, and range strings.

use vstd::prelude::*;

use crate::cpuset;
use crate::cpuset::BaseCpuset;
use crate::cpuset::CpuSet;
use crate::cpuset::DirOutcome;
use crate::cpuset::DirStep;
use crate::cpuset::CpuTopology;
use crate::number;
use crate::text;

verus! {

// ---------------------------------------------------------------------------
// Runs
// ---------------------------------------------------------------------------
/// The maximal runs of a set are in ascending order with a gap between any two,
/// and a CPU is in the set exactly if it is in one of them.
pub proof fn law_runs(s: Set<int>, cpu: int)
    requires
        0 <= cpu,
    ensures
        forall|k: int|
            0 <= k < cpuset::runs_from(s, cpu).len() ==> {
                let run = #[trigger] cpuset::runs_from(s, cpu)[k];
                cpu <= run.0 <= run.1 < cpuset::CPU_SETSIZE
            },
        forall|j: int, k: int|
            0 <= j < k < cpuset::runs_from(s, cpu).len() ==> #[trigger] cpuset::runs_from(
                s,
                cpu,
            )[j].1 + 1 < #[trigger] cpuset::runs_from(s, cpu)[k].0,
        forall|c: int|
            cpu <= c < cpuset::CPU_SETSIZE ==> (#[trigger] s.contains(c) <==> exists|k: int|
                0 <= k < cpuset::runs_from(s, cpu).len() && (#[trigger] cpuset::runs_from(
                    s,
                    cpu,
                )[k]).0 <= c <= cpuset::runs_from(s, cpu)[k].1),
    decreases cpuset::CPU_SETSIZE - cpu,
{
    let runs = cpuset::runs_from(s, cpu);
    if cpu >= cpuset::CPU_SETSIZE {
    } else if !s.contains(cpu) {
        law_runs(s, cpu + 1);
        assert(runs == cpuset::runs_from(s, cpu + 1));
        assert forall|c: int| cpu <= c < cpuset::CPU_SETSIZE implies (#[trigger] s.contains(c)
            <==> exists|k: int| 0 <= k < runs.len() && (#[trigger] runs[k]).0 <= c <= runs[k].1) by {
            if c == cpu {
                assert forall|k: int| 0 <= k < runs.len() implies !((#[trigger] runs[k]).0 <= c
                    <= runs[k].1) by {}
            }
        }
    } else {
        let last = cpuset::run_end(s, cpu);
        cpuset::lemma_run_end(s, cpu);
        law_runs(s, last + 1);
        let rest = cpuset::runs_from(s, last + 1);
        assert(runs == seq![(cpu, last)] + rest);
        assert forall|k: int| 0 <= k < runs.len() implies {
            let run = #[trigger] runs[k];
            cpu <= run.0 <= run.1 < cpuset::CPU_SETSIZE
        } by {
            if k > 0 {
                assert(runs[k] == rest[k - 1]);
            }
        }
        assert forall|k: int| 0 <= k < rest.len() implies last + 1 < (#[trigger] rest[k]).0 by {
            if rest[k].0 == last + 1 {
                assert(rest[k].0 <= last + 1 <= rest[k].1);
                assert(s.contains(last + 1));
            }
        }
        assert forall|j: int, k: int| 0 <= j < k < runs.len() implies #[trigger] runs[j].1 + 1
            < #[trigger] runs[k].0 by {
            assert(runs[k] == rest[k - 1]);
            if j > 0 {
                assert(runs[j] == rest[j - 1]);
            }
        }
        assert forall|c: int| cpu <= c < cpuset::CPU_SETSIZE implies (#[trigger] s.contains(c)
            <==> exists|k: int| 0 <= k < runs.len() && (#[trigger] runs[k]).0 <= c <= runs[k].1) by {
            assert(runs[0] == (cpu, last));
            if c <= last {
                assert(s.contains(c));
                assert(runs[0].0 <= c <= runs[0].1);
            } else {
                if s.contains(c) {
                    let k = choose|k: int|
                        0 <= k < rest.len() && (#[trigger] rest[k]).0 <= c <= rest[k].1;
                    assert(runs[k + 1] == rest[k]);
                }
                if exists|k: int| 0 <= k < runs.len() && (#[trigger] runs[k]).0 <= c <= runs[k].1 {
                    let k = choose|k: int|
                        0 <= k < runs.len() && (#[trigger] runs[k]).0 <= c <= runs[k].1;
                    assert(k > 0);
                    assert(runs[k] == rest[k - 1]);
                }
            }
        }
    }
}

// ---------------------------------------------------------------------------
// Range strings read back
// ---------------------------------------------------------------------------
proof fn lemma_run_text(lo: nat, hi: nat)
    requires
        lo <= hi < cpuset::CPU_SETSIZE,
    ensures
        ({
            let t = cpuset::run_text((lo as int, hi as int));
            &&& t.len() > 0
            &&& forall|k: int| 0 <= k < t.len() ==> #[trigger] t[k] != ','
            &&& text::spec_trim(t) == t
            &&& cpuset::part_bounds(t) == Some((lo, hi))
        }),
{
    number::law_decimal_reads_back(lo);
    number::law_decimal_reads_back(hi);
    let a = number::decimal(lo);
    let b = number::decimal(hi);
    let t = cpuset::run_text((lo as int, hi as int));
    assert(number::is_digit(a[0]));
    assert(number::is_digit(a.last())) by {
        assert(a.last() == a[a.len() - 1]);
    }
    assert(number::is_digit(b.last())) by {
        assert(b.last() == b[b.len() - 1]);
    }
    if lo == hi {
        assert forall|k: int| 0 <= k < t.len() implies #[trigger] t[k] != ',' && t[k] != '-' by {
            assert(number::is_digit(a[k]));
        }
        text::lemma_first_of_at(t, '-', '-', t.len() as int);
    } else {
        assert forall|k: int| 0 <= k < t.len() implies #[trigger] t[k] != ',' by {
            if k < a.len() {
                assert(t[k] == a[k] && number::is_digit(a[k]));
            } else if k > a.len() {
                assert(t[k] == b[k - a.len() - 1] && number::is_digit(b[k - a.len() - 1]));
            }
        }
        assert forall|k: int| 0 <= k < a.len() implies #[trigger] t[k] != '-' by {
            assert(t[k] == a[k] && number::is_digit(a[k]));
        }
        text::lemma_first_of_at(t, '-', '-', a.len() as int);
        assert(t.take(a.len() as int) =~= a);
        assert(t.skip(a.len() as int + 1) =~= b);
        assert(t[0] == a[0]);
        assert(t.last() == b.last());
    }
    text::lemma_trim_tight(t);
}

proof fn lemma_runs_text_split(runs: Seq<(int, int)>)
    requires
        runs.len() > 0,
        forall|k: int|
            0 <= k < runs.len() ==> {
                let run = #[trigger] runs[k];
                0 <= run.0 <= run.1 < cpuset::CPU_SETSIZE
            },
    ensures
        text::spec_split(cpuset::runs_text(runs), ',') == runs.map_values(
            |run: (int, int)| cpuset::run_text(run),
        ),
    decreases runs.len(),
{
    let texts = runs.map_values(|run: (int, int)| cpuset::run_text(run));
    let run = runs.last();
    assert(run == runs[runs.len() - 1]);
    lemma_run_text(run.0 as nat, run.1 as nat);
    text::lemma_split_none(cpuset::run_text(run), ',');
    if runs.len() == 1 {
        assert(texts =~= seq![cpuset::run_text(run)]);
    } else {
        let front = runs.drop_last();
        assert forall|k: int| 0 <= k < front.len() implies {
            let r = #[trigger] front[k];
            0 <= r.0 <= r.1 < cpuset::CPU_SETSIZE
        } by {
            assert(front[k] == runs[k]);
        }
        lemma_runs_text_split(front);
        let a = cpuset::runs_text(front);
        let b = cpuset::run_text(run);
        assert(cpuset::runs_text(runs) =~= a.push(',') + b);
        text::lemma_split_join(a, ',', b);
        assert(texts =~= front.map_values(|r: (int, int)| cpuset::run_text(r)) + seq![b]);
    }
}

/// A range string names exactly the CPUs of the set that it was written from.
pub proof fn law_range_string_reads_back(s: Set<int>)
    requires
        forall|cpu: int| s.contains(cpu) ==> 0 <= cpu < cpuset::CPU_SETSIZE,
    ensures
        cpuset::spec_parse_cpu_ranges(cpuset::range_string(s), None) == s,
{
    let runs = cpuset::runs_from(s, 0);
    let list = cpuset::range_string(s);
    let pieces = text::spec_split(list, ',');
    law_runs(s, 0);
    if runs.len() == 0 {
        assert(list =~= Seq::<char>::empty());
        assert(pieces =~= seq![Seq::<char>::empty()]);
        assert(text::spec_trim(Seq::<char>::empty()) =~= Seq::<char>::empty());
        assert(cpuset::part_bounds(Seq::<char>::empty()) is None);
    } else {
        lemma_runs_text_split(runs);
    }
    assert forall|cpu: int| cpuset::spec_parse_cpu_ranges(list, None).contains(cpu) == s.contains(
        cpu,
    ) by {
        if 0 <= cpu < cpuset::CPU_SETSIZE {
            if s.contains(cpu) {
                let k = choose|k: int|
                    0 <= k < runs.len() && (#[trigger] runs[k]).0 <= cpu <= runs[k].1;
                lemma_run_text(runs[k].0 as nat, runs[k].1 as nat);
                assert(cpuset::part_names(pieces[k], cpu));
            }
            if cpuset::list_names(list, cpu) {
                let k = choose|k: int|
                    0 <= k < pieces.len() && cpuset::part_names(#[trigger] pieces[k], cpu);
                if runs.len() > 0 {
                    lemma_run_text(runs[k].0 as nat, runs[k].1 as nat);
                    assert(runs[k].0 <= cpu <= runs[k].1);
                }
            }
        }
    }
    assert(cpuset::spec_parse_cpu_ranges(list, None) =~= s);
}

/// Two sets have the same range string only if they are the same set.
pub proof fn law_range_string_tells_sets_apart(s: Set<int>, t: Set<int>)
    requires
        forall|cpu: int| s.contains(cpu) ==> 0 <= cpu < cpuset::CPU_SETSIZE,
        forall|cpu: int| t.contains(cpu) ==> 0 <= cpu < cpuset::CPU_SETSIZE,
        cpuset::range_string(s) == cpuset::range_string(t),
    ensures
        s == t,
{
    law_range_string_reads_back(s);
    law_range_string_reads_back(t);
}

// ---------------------------------------------------------------------------
// CPU lists and specifications
// ---------------------------------------------------------------------------
/// A CPU list names no CPU beyond the size of a set, nor one that is not present.
pub proof fn law_list_stays_in_bounds(list: Seq<char>, present: Option<Set<int>>, cpu: int)
    requires
        cpuset::spec_parse_cpu_ranges(list, present).contains(cpu),
    ensures
        0 <= cpu < cpuset::CPU_SETSIZE,
        present matches Some(p) ==> p.contains(cpu),
{
}

/// A comma between two CPU lists takes the union of what they name.
pub proof fn law_list_comma_is_union(a: Seq<char>, b: Seq<char>, present: Option<Set<int>>)
    ensures
        cpuset::spec_parse_cpu_ranges(a.push(',') + b, present) == cpuset::spec_parse_cpu_ranges(
            a,
            present,
        ).union(cpuset::spec_parse_cpu_ranges(b, present)),
{
    let list = a.push(',') + b;
    let left = text::spec_split(a, ',');
    let right = text::spec_split(b, ',');
    let pieces = text::spec_split(list, ',');
    text::lemma_split_join(a, ',', b);
    assert forall|cpu: int| cpuset::list_names(list, cpu) == (cpuset::list_names(a, cpu)
        || cpuset::list_names(b, cpu)) by {
        if cpuset::list_names(list, cpu) {
            let k = choose|k: int|
                0 <= k < pieces.len() && cpuset::part_names(#[trigger] pieces[k], cpu);
            if k < left.len() {
                assert(cpuset::part_names(left[k], cpu));
            } else {
                assert(cpuset::part_names(right[k - left.len()], cpu));
            }
        }
        if cpuset::list_names(a, cpu) {
            let k = choose|k: int|
                0 <= k < left.len() && cpuset::part_names(#[trigger] left[k], cpu);
            assert(cpuset::part_names(pieces[k], cpu));
        }
        if cpuset::list_names(b, cpu) {
            let k = choose|k: int|
                0 <= k < right.len() && cpuset::part_names(#[trigger] right[k], cpu);
            assert(pieces[left.len() + k] == right[k]);
            assert(cpuset::part_names(pieces[left.len() + k], cpu));
        }
    }
    assert(cpuset::spec_parse_cpu_ranges(list, present) =~= cpuset::spec_parse_cpu_ranges(
        a,
        present,
    ).union(cpuset::spec_parse_cpu_ranges(b, present)));
}

/// A comma between two CPU specifications takes the union of what they stand for.
pub proof fn law_spec_comma_is_union(a: Seq<char>, b: Seq<char>, topo: CpuTopology)
    ensures
        cpuset::spec_parse_cpu_spec(a.push(',') + b, topo) == cpuset::spec_parse_cpu_spec(
            a,
            topo,
        ).union(cpuset::spec_parse_cpu_spec(b, topo)),
{
    let spec = a.push(',') + b;
    let left = text::spec_split(a, ',');
    let right = text::spec_split(b, ',');
    let pieces = text::spec_split(spec, ',');
    text::lemma_split_join(a, ',', b);
    assert forall|cpu: int| cpuset::spec_parse_cpu_spec(spec, topo).contains(cpu) == (
    cpuset::spec_parse_cpu_spec(a, topo).contains(cpu) || cpuset::spec_parse_cpu_spec(
        b,
        topo,
    ).contains(cpu)) by {
        if cpuset::spec_parse_cpu_spec(spec, topo).contains(cpu) {
            let k = choose|k: int|
                0 <= k < pieces.len() && cpuset::part_cpus(
                    text::spec_trim(#[trigger] pieces[k]),
                    topo,
                ).contains(cpu);
            if k < left.len() {
                assert(left[k] == pieces[k]);
            } else {
                assert(right[k - left.len()] == pieces[k]);
            }
        }
        if cpuset::spec_parse_cpu_spec(a, topo).contains(cpu) {
            let k = choose|k: int|
                0 <= k < left.len() && cpuset::part_cpus(
                    text::spec_trim(#[trigger] left[k]),
                    topo,
                ).contains(cpu);
            assert(pieces[k] == left[k]);
        }
        if cpuset::spec_parse_cpu_spec(b, topo).contains(cpu) {
            let k = choose|k: int|
                0 <= k < right.len() && cpuset::part_cpus(
                    text::spec_trim(#[trigger] right[k]),
                    topo,
                ).contains(cpu);
            assert(pieces[left.len() + k] == right[k]);
        }
    }
    assert(cpuset::spec_parse_cpu_spec(spec, topo) =~= cpuset::spec_parse_cpu_spec(
        a,
        topo,
    ).union(cpuset::spec_parse_cpu_spec(b, topo)));
}

proof fn lemma_single_part_spec(part: Seq<char>, topo: CpuTopology)
    requires
        forall|k: int| 0 <= k < part.len() ==> #[trigger] part[k] != ',',
        text::spec_trim(part) == part,
    ensures
        cpuset::spec_parse_cpu_spec(part, topo) == cpuset::part_cpus(part, topo),
{
    text::lemma_split_none(part, ',');
    let pieces = text::spec_split(part, ',');
    assert(pieces[0] == part);
    assert forall|cpu: int| cpuset::spec_parse_cpu_spec(part, topo).contains(cpu)
        == cpuset::part_cpus(part, topo).contains(cpu) by {
        if cpuset::part_cpus(part, topo).contains(cpu) {
            assert(cpuset::part_cpus(text::spec_trim(pieces[0]), topo).contains(cpu));
        }
    }
    assert(cpuset::spec_parse_cpu_spec(part, topo) =~= cpuset::part_cpus(part, topo));
}

/// The tier names stand for the tiers, and `all-core` for all present CPUs.
pub proof fn law_tier_names(topo: CpuTopology)
    ensures
        cpuset::spec_parse_cpu_spec("e-core"@, topo) == topo.e_core@,
        cpuset::spec_parse_cpu_spec("p-core"@, topo) == topo.p_core@,
        cpuset::spec_parse_cpu_spec("hp-core"@, topo) == topo.hp_core@,
        cpuset::spec_parse_cpu_spec("all-core"@, topo) == topo.present_cpus@,
{
    reveal_strlit("e-core");
    reveal_strlit("p-core");
    reveal_strlit("hp-core");
    reveal_strlit("all-core");
    text::lemma_trim_tight("e-core"@);
    text::lemma_trim_tight("p-core"@);
    text::lemma_trim_tight("hp-core"@);
    text::lemma_trim_tight("all-core"@);
    lemma_single_part_spec("e-core"@, topo);
    lemma_single_part_spec("p-core"@, topo);
    lemma_single_part_spec("hp-core"@, topo);
    lemma_single_part_spec("all-core"@, topo);
    assert("p-core"@[0] != "e-core"@[0]);
    assert("hp-core"@.len() != "e-core"@.len());
    assert("hp-core"@.len() != "p-core"@.len());
    assert("all-core"@.len() != "e-core"@.len());
    assert("all-core"@.len() != "hp-core"@.len());
}

proof fn lemma_run_is_a_spec(lo: nat, hi: nat, topo: CpuTopology, cpu: int)
    requires
        lo <= hi < cpuset::CPU_SETSIZE,
    ensures
        cpuset::part_cpus(
            text::spec_trim(cpuset::run_text((lo as int, hi as int))),
            topo,
        ).contains(cpu) <==> lo <= cpu <= hi && topo.present_cpus@.contains(cpu),
{
    let t = cpuset::run_text((lo as int, hi as int));
    lemma_run_text(lo, hi);
    number::law_decimal_reads_back(lo);
    let a = number::decimal(lo);
    assert(t[0] == a[0] && number::is_digit(a[0]));
    reveal_strlit("e-core");
    reveal_strlit("p-core");
    reveal_strlit("hp-core");
    reveal_strlit("all-core");
    assert(!number::is_digit("e-core"@[0]));
    assert(!number::is_digit("p-core"@[0]));
    assert(!number::is_digit("hp-core"@[0]));
    assert(!number::is_digit("all-core"@[0]));
    text::lemma_split_none(t, ',');
    assert(text::spec_split(t, ',')[0] == t);
    if lo <= cpu <= hi {
        assert(cpuset::part_names(text::spec_split(t, ',')[0], cpu));
        assert(cpuset::list_names(t, cpu));
    }
}

/// As a CPU specification, the range string of present CPUs stands for exactly them.
pub proof fn law_range_string_is_a_spec(s: Set<int>, topo: CpuTopology)
    requires
        s.subset_of(topo.present_cpus@),
    ensures
        cpuset::spec_parse_cpu_spec(cpuset::range_string(s), topo) == s,
{
    let runs = cpuset::runs_from(s, 0);
    let list = cpuset::range_string(s);
    let pieces = text::spec_split(list, ',');
    law_runs(s, 0);
    if runs.len() == 0 {
        let none = Seq::<char>::empty();
        assert(list =~= none);
        assert(pieces =~= seq![none]);
        assert(text::spec_trim(none) =~= none);
        assert(cpuset::part_bounds(none) is None);
        reveal_strlit("e-core");
        reveal_strlit("p-core");
        reveal_strlit("hp-core");
        reveal_strlit("all-core");
        assert(cpuset::part_cpus(none, topo) =~= Set::<int>::empty());
    } else {
        lemma_runs_text_split(runs);
    }
    assert forall|cpu: int| cpuset::spec_parse_cpu_spec(list, topo).contains(cpu) == s.contains(
        cpu,
    ) by {
        if s.contains(cpu) {
            let k = choose|k: int|
                0 <= k < runs.len() && (#[trigger] runs[k]).0 <= cpu <= runs[k].1;
            lemma_run_is_a_spec(runs[k].0 as nat, runs[k].1 as nat, topo, cpu);
            assert(cpuset::part_cpus(text::spec_trim(pieces[k]), topo).contains(cpu));
        }
        if cpuset::spec_parse_cpu_spec(list, topo).contains(cpu) {
            let k = choose|k: int|
                0 <= k < pieces.len() && cpuset::part_cpus(
                    text::spec_trim(#[trigger] pieces[k]),
                    topo,
                ).contains(cpu);
            if runs.len() > 0 {
                lemma_run_is_a_spec(runs[k].0 as nat, runs[k].1 as nat, topo, cpu);
                assert(runs[k].0 <= cpu <= runs[k].1);
            }
        }
    }
    assert(cpuset::spec_parse_cpu_spec(list, topo) =~= s);
}

/// A CPU specification can be replaced by the range string of what it stands for, if
/// that is present.
pub proof fn law_spec_can_be_expanded(spec: Seq<char>, topo: CpuTopology)
    requires
        cpuset::spec_parse_cpu_spec(spec, topo).subset_of(topo.present_cpus@),
    ensures
        cpuset::spec_parse_cpu_spec(
            cpuset::range_string(cpuset::spec_parse_cpu_spec(spec, topo)),
            topo,
        ) == cpuset::spec_parse_cpu_spec(spec, topo),
{
    law_range_string_is_a_spec(cpuset::spec_parse_cpu_spec(spec, topo), topo);
}

/// The two numbers of a range can stand in either order.
pub proof fn law_reversed_range(lo: nat, hi: nat)
    requires
        lo < usize::MAX,
        hi <= usize::MAX,
    ensures
        cpuset::part_bounds(number::decimal(lo) + seq!['-'] + number::decimal(hi)) == Some(
            if lo <= hi {
                (lo, hi)
            } else {
                (hi, lo)
            },
        ),
{
    number::law_decimal_reads_back(lo);
    number::law_decimal_reads_back(hi);
    let a = number::decimal(lo);
    let b = number::decimal(hi);
    let t = a + seq!['-'] + b;
    assert forall|k: int| 0 <= k < a.len() implies #[trigger] t[k] != '-' by {
        assert(t[k] == a[k] && number::is_digit(a[k]));
    }
    text::lemma_first_of_at(t, '-', '-', a.len() as int);
    assert(t.take(a.len() as int) =~= a);
    assert(t.skip(a.len() as int + 1) =~= b);
}

// ---------------------------------------------------------------------------
// Bits and texts
// ---------------------------------------------------------------------------
proof fn lemma_bit_shifted(w: u64, i: u64)
    by (bit_vector)
    requires
        i < 64,
    ensures
        (w & (1u64 << i) != 0) == ((w >> i) & 1 == 1),
{
}

/// A CPU is in a set exactly if its bit is on: bit `cpu % 64`, counted from the lowest, of
/// word `cpu / 64`.
pub proof fn law_bits(s: CpuSet, cpu: int)
    ensures
        s@.contains(cpu) <==> 0 <= cpu < 1024 && (s.bits[cpu / 64] >> ((cpu % 64) as u64)) & 1u64
            == 1,
{
    if 0 <= cpu < 1024 {
        lemma_bit_shifted(s.bits[cpu / 64], (cpu % 64) as u64);
    }
}

proof fn lemma_no_runs(s: Set<int>, cpu: int)
    requires
        forall|c: int| cpu <= c < cpuset::CPU_SETSIZE ==> !s.contains(c),
    ensures
        cpuset::runs_from(s, cpu) == Seq::<(int, int)>::empty(),
    decreases cpuset::CPU_SETSIZE - cpu,
{
    if cpu < cpuset::CPU_SETSIZE {
        lemma_no_runs(s, cpu + 1);
    }
}

proof fn lemma_runs_skip(s: Set<int>, cpu: int, next: int)
    requires
        cpu <= next <= cpuset::CPU_SETSIZE,
        forall|c: int| cpu <= c < next ==> !s.contains(c),
    ensures
        cpuset::runs_from(s, cpu) == cpuset::runs_from(s, next),
    decreases next - cpu,
{
    if cpu < next {
        lemma_runs_skip(s, cpu + 1, next);
    }
}

proof fn lemma_run_end_is(s: Set<int>, cpu: int, last: int)
    requires
        cpu <= last < cpuset::CPU_SETSIZE,
        forall|k: int| cpu < k <= last ==> s.contains(k),
        last + 1 < cpuset::CPU_SETSIZE ==> !s.contains(last + 1),
    ensures
        cpuset::run_end(s, cpu) == last,
    decreases last - cpu,
{
    if cpu < last {
        lemma_run_end_is(s, cpu + 1, last);
    }
}

proof fn lemma_runs_join(a: Set<int>, b: Set<int>, cpu: int)
    requires
        0 <= cpu,
        forall|x: int, y: int| #[trigger] a.contains(x) && #[trigger] b.contains(y) ==> x + 1 < y,
    ensures
        cpuset::runs_from(a.union(b), cpu) == cpuset::runs_from(a, cpu) + cpuset::runs_from(b, cpu),
    decreases cpuset::CPU_SETSIZE - cpu,
{
    let u = a.union(b);
    if cpu >= cpuset::CPU_SETSIZE {
        assert(cpuset::runs_from(u, cpu) =~= cpuset::runs_from(a, cpu) + cpuset::runs_from(b, cpu));
    } else if a.contains(cpu) {
        let last = cpuset::run_end(a, cpu);
        cpuset::lemma_run_end(a, cpu);
        assert(a.contains(last));
        assert forall|c: int| cpu <= c <= last + 1 implies !b.contains(c) by {
            assert(a.contains(cpu));
        }
        lemma_run_end_is(u, cpu, last);
        lemma_runs_skip(b, cpu, last + 1);
        lemma_runs_join(a, b, last + 1);
        let run = seq![(cpu, last)];
        assert(run + (cpuset::runs_from(a, last + 1) + cpuset::runs_from(b, last + 1)) =~= (run
            + cpuset::runs_from(a, last + 1)) + cpuset::runs_from(b, last + 1));
    } else if b.contains(cpu) {
        let last = cpuset::run_end(b, cpu);
        cpuset::lemma_run_end(b, cpu);
        assert forall|c: int| cpu <= c implies !a.contains(c) by {
            assert(b.contains(cpu));
        }
        lemma_no_runs(a, cpu);
        lemma_no_runs(a, last + 1);
        lemma_run_end_is(u, cpu, last);
        lemma_runs_join(a, b, last + 1);
        assert(cpuset::runs_from(u, cpu) =~= cpuset::runs_from(a, cpu) + cpuset::runs_from(b, cpu));
    } else {
        lemma_runs_join(a, b, cpu + 1);
    }
}

proof fn lemma_runs_text_join(x: Seq<(int, int)>, y: Seq<(int, int)>)
    requires
        x.len() > 0,
        y.len() > 0,
    ensures
        cpuset::runs_text(x + y) == cpuset::runs_text(x) + seq![','] + cpuset::runs_text(y),
    decreases y.len(),
{
    let all = x + y;
    assert(all.last() == y.last());
    assert(all.drop_last() =~= x + y.drop_last());
    if y.len() == 1 {
        assert(all.drop_last() =~= x);
        assert(y[0] == y.last());
    } else {
        lemma_runs_text_join(x, y.drop_last());
        assert(cpuset::runs_text(all) =~= cpuset::runs_text(x) + seq![','] + cpuset::runs_text(y));
    }
}

/// No CPU is written as the empty text, a run of CPUs as its only number, or as its first
/// and its last number around a hyphen.
pub proof fn law_range_string_of_run(lo: nat, hi: nat)
    requires
        lo <= hi < 1024,
    ensures
        cpuset::range_string(Set::empty()) == Seq::<char>::empty(),
        cpuset::range_string(Set::new(|cpu: int| lo <= cpu <= hi)) == if lo == hi {
            number::decimal(lo)
        } else {
            number::decimal(lo) + seq!['-'] + number::decimal(hi)
        },
{
    lemma_no_runs(Set::empty(), 0);
    let s = Set::new(|cpu: int| lo <= cpu <= hi);
    lemma_runs_skip(s, 0, lo as int);
    lemma_run_end_is(s, lo as int, hi as int);
    lemma_no_runs(s, hi as int + 1);
    let run = (lo as int, hi as int);
    assert(cpuset::runs_from(s, 0) =~= seq![run]);
    assert(seq![run][0] == run);
}

/// Two sets that are apart, one below the other, are written one after the other with a
/// comma between them.
pub proof fn law_range_string_joins(a: Set<int>, b: Set<int>, x: int, y: int)
    requires
        a.contains(x),
        b.contains(y),
        forall|c: int| a.contains(c) || b.contains(c) ==> 0 <= c < 1024,
        forall|c: int, d: int| #[trigger] a.contains(c) && #[trigger] b.contains(d) ==> c + 1 < d,
    ensures
        cpuset::range_string(a.union(b)) == cpuset::range_string(a) + seq![',']
            + cpuset::range_string(b),
{
    assert(0 <= x < 1024 && 0 <= y < 1024);
    lemma_runs_join(a, b, 0);
    law_runs(a, 0);
    law_runs(b, 0);
    assert(cpuset::runs_from(a, 0).len() > 0);
    assert(cpuset::runs_from(b, 0).len() > 0);
    lemma_runs_text_join(cpuset::runs_from(a, 0), cpuset::runs_from(b, 0));
}

/// One part of a CPU list, white space around it removed, names the CPU of its number, or
/// those between the two numbers around its first hyphen, both included, in whichever
/// order they stand. If what follows the hyphen is no number, the first number stands
/// alone. If what precedes it is none, or is the largest machine number, the part names
/// nothing. Of these, the CPUs below 1024 count that are present.
pub proof fn law_list_part(part: Seq<char>, present: Option<Set<int>>, p: int, cpu: int)
    requires
        forall|k: int| 0 <= k < part.len() ==> #[trigger] part[k] != ',',
    ensures
        ({
            let t = text::spec_trim(part);
            let max = usize::MAX as nat;
            let counts = 0 <= cpu < 1024 && (present matches Some(set) ==> set.contains(cpu));
            let named = cpuset::spec_parse_cpu_ranges(part, present).contains(cpu);
            &&& (forall|k: int| 0 <= k < t.len() ==> #[trigger] t[k] != '-') ==> (named <==> counts
                && number::spec_parse_unsigned(t, max) == Some(cpu as nat))
            &&& (0 <= p < t.len() && t[p] == '-' && forall|k: int|
                0 <= k < p ==> #[trigger] t[k] != '-') ==> (named <==> counts && match (
                number::spec_parse_unsigned(t.take(p), max),
                number::spec_parse_unsigned(t.skip(p + 1), max),
            ) {
                (Some(a), Some(b)) => a < usize::MAX && (a <= cpu <= b || b <= cpu <= a),
                (Some(a), None) => a < usize::MAX && a == cpu,
                (None, _) => false,
            })
        }),
{
    let t = text::spec_trim(part);
    text::lemma_split_none(part, ',');
    let pieces = text::spec_split(part, ',');
    assert(pieces[0] == part);
    if cpuset::part_names(part, cpu) {
        assert(cpuset::part_names(pieces[0], cpu));
    }
    assert(cpuset::list_names(part, cpu) == cpuset::part_names(part, cpu));
    if forall|k: int| 0 <= k < t.len() ==> #[trigger] t[k] != '-' {
        text::lemma_first_of_at(t, '-', '-', t.len() as int);
    }
    if 0 <= p < t.len() && t[p] == '-' && forall|k: int| 0 <= k < p ==> #[trigger] t[k] != '-' {
        text::lemma_first_of_at(t, '-', '-', p);
    }
}

/// One part of a CPU specification, white space around it removed, stands for a tier, or
/// for all present CPUs, if it is the name of that. Anything else is a CPU list.
pub proof fn law_spec_part(part: Seq<char>, topo: CpuTopology)
    requires
        forall|k: int| 0 <= k < part.len() ==> #[trigger] part[k] != ',',
    ensures
        ({
            let t = text::spec_trim(part);
            let set = cpuset::spec_parse_cpu_spec(part, topo);
            &&& t == "e-core"@ ==> set == topo.e_core@
            &&& t == "p-core"@ ==> set == topo.p_core@
            &&& t == "hp-core"@ ==> set == topo.hp_core@
            &&& t == "all-core"@ ==> set == topo.present_cpus@
            &&& t != "e-core"@ && t != "p-core"@ && t != "hp-core"@ && t != "all-core"@ ==> set
                == cpuset::spec_parse_cpu_ranges(t, Some(topo.present_cpus@))
        }),
{
    let t = text::spec_trim(part);
    let set = cpuset::spec_parse_cpu_spec(part, topo);
    text::lemma_split_none(part, ',');
    let pieces = text::spec_split(part, ',');
    assert(pieces[0] == part);
    assert forall|cpu: int| set.contains(cpu) == cpuset::part_cpus(t, topo).contains(cpu) by {
        if cpuset::part_cpus(t, topo).contains(cpu) {
            assert(cpuset::part_cpus(text::spec_trim(pieces[0]), topo).contains(cpu));
        }
    }
    assert(set =~= cpuset::part_cpus(t, topo));
    reveal_strlit("e-core");
    reveal_strlit("p-core");
    reveal_strlit("hp-core");
    reveal_strlit("all-core");
    assert("p-core"@[0] != "e-core"@[0]);
    assert("hp-core"@.len() != "e-core"@.len());
    assert("all-core"@.len() != "hp-core"@.len());
}

// ---------------------------------------------------------------------------
// Directories
// ---------------------------------------------------------------------------
/// A name can name a base directory exactly if it has a character and none is a slash.
pub proof fn law_base_name(name: Seq<char>)
    ensures
        cpuset::is_cpuset_name(name) <==> name.len() > 0 && forall|k: int|
            0 <= k < name.len() ==> #[trigger] name[k] != '/',
{
    text::lemma_first_of(name, '/', '/');
}

/// The base directory is the chosen one, and `/dev/cpuset/ThreadOpt` as long as none is
/// chosen.
pub proof fn law_base_path(base: BaseCpuset)
    ensures
        base.choice() is None ==> base.path() == "/dev/cpuset/ThreadOpt"@,
        base.choice() matches Some(p) ==> base.path() == p,
{
}

/// A directory is known by the range string of its CPUs exactly if directories are in use
/// and it could be made, and is not known otherwise.
pub proof fn law_known_directory(cpus: Set<int>, topo: CpuTopology, created: bool)
    ensures
        topo.cpuset_enabled && created ==> cpuset::ensured_dir(cpus, topo, created)
            == cpuset::range_string(cpus),
        !topo.cpuset_enabled || !created ==> cpuset::ensured_dir(cpus, topo, created).len() == 0,
{
}

/// The steps of making a directory come in this order, each after the one before it
/// succeeded, and an end is final.
pub proof fn law_directory_steps(outcome: DirOutcome, ok: bool)
    ensures
        cpuset::next_dir_step(DirStep::MakeDir, DirOutcome::Done) == DirStep::SetMode,
        cpuset::next_dir_step(DirStep::MakeDir, DirOutcome::AlreadyExists) == DirStep::SetMode,
        cpuset::next_dir_step(DirStep::SetMode, DirOutcome::Done) == DirStep::SetOwner,
        cpuset::next_dir_step(DirStep::SetOwner, DirOutcome::Done) == DirStep::WriteCpus,
        cpuset::next_dir_step(DirStep::WriteCpus, DirOutcome::Done) == DirStep::WriteMems,
        cpuset::next_dir_step(DirStep::WriteMems, DirOutcome::Done) == DirStep::Finished(true),
        cpuset::next_dir_step(DirStep::Finished(ok), outcome) == DirStep::Finished(ok),
{
}

/// The present CPUs limit a list only if they are given.
pub proof fn law_optional_limit(set: CpuSet)
    ensures
        cpuset::optional_view(None) is None,
        cpuset::optional_view(Some(&set)) == Some(set@),
{
}

} // verus!
