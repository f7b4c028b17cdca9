//! Sets of CPUs and the text forms in which they are written.

use vstd::prelude::*;

use crate::number;
use crate::text;

verus! {

/// The number of CPUs that a set can hold.
pub const CPU_SETSIZE: usize = 1024;

/// The number of CPUs in one word of a set.
pub const CPU_WORD_BITS: usize = 64;

/// The number of words of a set.
pub const CPU_WORDS: usize = CPU_SETSIZE / CPU_WORD_BITS;

/// A set of CPU numbers below `CPU_SETSIZE`, one bit for each.
#[derive(Clone, Copy, PartialEq, Eq)]
pub struct CpuSet {
    pub bits: [u64; CPU_WORDS],
}

/// Whether bit `i` of `w` is on.
pub open spec fn bit(w: u64, i: int) -> bool {
    w & (1u64 << (i as u64)) != 0
}

impl CpuSet {
    /// Whether the set holds `cpu`.
    pub open spec fn has(self, cpu: int) -> bool {
        0 <= cpu < CPU_SETSIZE && bit(self.bits[cpu / 64], cpu % 64)
    }
}

impl View for CpuSet {
    type V = Set<int>;

    open spec fn view(&self) -> Set<int> {
        Set::new(|cpu: int| self.has(cpu))
    }
}

proof fn lemma_bit_on(w: u64, i: u64, j: u64)
    by (bit_vector)
    requires
        i < 64,
        j < 64,
    ensures
        ((w | (1u64 << j)) & (1u64 << i) != 0) == (w & (1u64 << i) != 0 || i == j),
{
}

proof fn lemma_bit_or(a: u64, b: u64, i: u64)
    by (bit_vector)
    requires
        i < 64,
    ensures
        ((a | b) & (1u64 << i) != 0) == (a & (1u64 << i) != 0 || b & (1u64 << i) != 0),
{
}

proof fn lemma_bit_zero(i: u64)
    by (bit_vector)
    requires
        i < 64,
    ensures
        0u64 & (1u64 << i) == 0,
{
}

/// The members of `s` from 0 to below `n`.
spec fn below(s: Set<int>, n: int) -> Set<int> {
    Set::new(|cpu: int| 0 <= cpu < n && s.contains(cpu))
}

proof fn lemma_below(s: Set<int>, n: nat)
    ensures
        below(s, n as int).finite(),
        below(s, n as int).len() <= n,
    decreases n,
{
    if n == 0 {
        assert(below(s, 0) =~= Set::empty());
    } else {
        let m = (n - 1) as nat;
        lemma_below(s, m);
        if s.contains(m as int) {
            assert(below(s, n as int) =~= below(s, m as int).insert(m as int));
        } else {
            assert(below(s, n as int) =~= below(s, m as int));
        }
    }
}

impl Default for CpuSet {
    /// The empty set.
    fn default() -> (r: Self)
        ensures
            r@ == Set::<int>::empty(),
    {
        CpuSet::new()
    }
}

impl CpuSet {
    /// The empty set.
    pub fn new() -> (r: Self)
        ensures
            r@ == Set::<int>::empty(),
    {
        let r = CpuSet { bits: [0u64; CPU_WORDS] };
        assert forall|cpu: int| !r@.contains(cpu) by {
            if 0 <= cpu < CPU_SETSIZE {
                lemma_bit_zero((cpu % 64) as u64);
            }
        }
        assert(r@ =~= Set::<int>::empty());
        r
    }

    /// Adds `cpu`. A number that a set cannot hold is ignored.
    pub fn set(&mut self, cpu: usize)
        ensures
            final(self)@ == if cpu < CPU_SETSIZE {
                old(self)@.insert(cpu as int)
            } else {
                old(self)@
            },
    {
        if cpu < CPU_SETSIZE {
            let w: usize = cpu / CPU_WORD_BITS;
            let b: u64 = (cpu % CPU_WORD_BITS) as u64;
            let ghost before_bits = self.bits;
            self.bits[w] = self.bits[w] | (1u64 << b);
            proof {
                assert forall|c: int| self@.contains(c) == old(self)@.insert(
                    cpu as int,
                ).contains(c) by {
                    if 0 <= c < CPU_SETSIZE {
                        let i = (c % 64) as u64;
                        lemma_bit_on(before_bits[w as int], i, b);
                        if c / 64 == w {
                            assert((c == cpu) == (i == b));
                        } else {
                            assert(self.bits[c / 64] == before_bits[c / 64]);
                        }
                    }
                }
                assert(self@ =~= old(self)@.insert(cpu as int));
            }
        }
    }

    /// Whether the set holds `cpu`.
    pub fn is_set(&self, cpu: usize) -> (r: bool)
        ensures
            r == self@.contains(cpu as int),
    {
        cpu < CPU_SETSIZE && self.bits[cpu / CPU_WORD_BITS] & (1u64 << ((cpu
            % CPU_WORD_BITS) as u64)) != 0
    }

    /// The number of CPUs in the set.
    pub fn count(&self) -> (r: usize)
        ensures
            r == self@.len(),
            self@.finite(),
            r <= CPU_SETSIZE,
    {
        let mut n: usize = 0;
        let mut cpu: usize = 0;
        assert(below(self@, 0) =~= Set::empty());
        while cpu < CPU_SETSIZE
            invariant
                cpu <= CPU_SETSIZE,
                n <= cpu,
                below(self@, cpu as int).finite(),
                n == below(self@, cpu as int).len(),
            decreases CPU_SETSIZE - cpu,
        {
            if self.is_set(cpu) {
                assert(below(self@, cpu + 1) =~= below(self@, cpu as int).insert(cpu as int));
                n = n + 1;
            } else {
                assert(below(self@, cpu + 1) =~= below(self@, cpu as int));
            }
            cpu = cpu + 1;
        }
        assert(below(self@, CPU_SETSIZE as int) =~= self@);
        n
    }

    /// Adds every CPU of `other`.
    pub fn or(&mut self, other: &CpuSet)
        ensures
            final(self)@ == old(self)@.union(other@),
    {
        let mut w: usize = 0;
        while w < CPU_WORDS
            invariant
                w <= CPU_WORDS,
                forall|k: int|
                    0 <= k < w ==> #[trigger] self.bits[k] == old(self).bits[k] | other.bits[k],
                forall|k: int| w <= k < CPU_WORDS ==> #[trigger] self.bits[k] == old(self).bits[k],
            decreases CPU_WORDS - w,
        {
            self.bits[w] = self.bits[w] | other.bits[w];
            w = w + 1;
        }
        proof {
            assert forall|c: int| self@.contains(c) == old(self)@.union(other@).contains(c) by {
                if 0 <= c < CPU_SETSIZE {
                    lemma_bit_or(old(self).bits[c / 64], other.bits[c / 64], (c % 64) as u64);
                }
            }
            assert(self@ =~= old(self)@.union(other@));
        }
    }
}

// ---------------------------------------------------------------------------
// Range strings
// ---------------------------------------------------------------------------
/// The last CPU of the unbroken run of members of `s` that starts at `cpu`.
pub open spec fn run_end(s: Set<int>, cpu: int) -> int
    decreases CPU_SETSIZE - cpu,
{
    if cpu + 1 < CPU_SETSIZE && s.contains(cpu + 1) {
        run_end(s, cpu + 1)
    } else {
        cpu
    }
}

/// What `run_end` reports.
pub proof fn lemma_run_end(s: Set<int>, cpu: int)
    requires
        cpu < CPU_SETSIZE,
    ensures
        cpu <= run_end(s, cpu) < CPU_SETSIZE,
        forall|k: int| cpu < k <= run_end(s, cpu) ==> s.contains(k),
        run_end(s, cpu) + 1 < CPU_SETSIZE ==> !s.contains(run_end(s, cpu) + 1),
    decreases CPU_SETSIZE - cpu,
{
    if cpu + 1 < CPU_SETSIZE && s.contains(cpu + 1) {
        lemma_run_end(s, cpu + 1);
    }
}

proof fn lemma_run_end_at(s: Set<int>, cpu: int, last: int)
    requires
        cpu <= last < CPU_SETSIZE,
        forall|k: int| cpu < k <= last ==> s.contains(k),
        last + 1 < CPU_SETSIZE ==> !s.contains(last + 1),
    ensures
        run_end(s, cpu) == last,
    decreases last - cpu,
{
    if cpu < last {
        lemma_run_end_at(s, cpu + 1, last);
    }
}

/// The maximal runs of consecutive members of `s` at or above `cpu`, each as its
/// first and last member, in ascending order.
pub open spec fn runs_from(s: Set<int>, cpu: int) -> Seq<(int, int)>
    decreases CPU_SETSIZE - cpu,
{
    if cpu >= CPU_SETSIZE {
        Seq::empty()
    } else if !s.contains(cpu) {
        runs_from(s, cpu + 1)
    } else {
        proof {
            lemma_run_end(s, cpu);
        }
        seq![(cpu, run_end(s, cpu))] + runs_from(s, run_end(s, cpu) + 1)
    }
}

/// A run as text: one number, or two joined by a hyphen.
pub open spec fn run_text(run: (int, int)) -> Seq<char> {
    if run.0 == run.1 {
        number::decimal(run.0 as nat)
    } else {
        number::decimal(run.0 as nat) + seq!['-'] + number::decimal(run.1 as nat)
    }
}

/// Runs as text, with commas between them.
pub open spec fn runs_text(runs: Seq<(int, int)>) -> Seq<char>
    decreases runs.len(),
{
    if runs.len() == 0 {
        Seq::empty()
    } else if runs.len() == 1 {
        run_text(runs[0])
    } else {
        runs_text(runs.drop_last()) + seq![','] + run_text(runs.last())
    }
}

/// The range string of a set: its maximal runs in ascending order, as in
/// `0-3,5,7-8`.
pub open spec fn range_string(s: Set<int>) -> Seq<char> {
    runs_text(runs_from(s, 0))
}

/// Appends one run, after a comma unless it is the first.
fn push_range(s: &mut String, lo: usize, hi: usize, first: &mut bool, Ghost(runs): Ghost<
    Seq<(int, int)>,
>)
    requires
        lo <= hi,
        *old(first) == (runs.len() == 0),
        old(s)@ == runs_text(runs),
    ensures
        !*final(first),
        final(s)@ == runs_text(runs.push((lo as int, hi as int))),
{
    let ghost run = (lo as int, hi as int);
    proof {
        reveal_strlit(",");
        reveal_strlit("-");
        assert(runs.push(run).drop_last() =~= runs);
    }
    if !*first {
        s.append(",");
    }
    number::push_decimal(s, lo as u64);
    if lo != hi {
        s.append("-");
        number::push_decimal(s, hi as u64);
    }
    *first = false;
    assert(s@ =~= runs_text(runs.push(run)));
}

impl CpuSet {
    /// Writes the set as a range string.
    pub fn to_range_string(&self) -> (r: String)
        ensures
            r@ == range_string(self@),
    {
        let mut result = String::new();
        let mut first: bool = true;
        let mut start: Option<usize> = None;
        let mut cpu: usize = 0;
        let ghost mut done: Seq<(int, int)> = Seq::empty();
        assert(done + runs_from(self@, 0) =~= runs_from(self@, 0));
        while cpu < CPU_SETSIZE
            invariant
                cpu <= CPU_SETSIZE,
                result@ == runs_text(done),
                first == (done.len() == 0),
                match start {
                    Some(lo) => {
                        &&& lo < cpu
                        &&& forall|k: int| lo <= k < cpu ==> self@.contains(k)
                        &&& runs_from(self@, 0) == done + runs_from(self@, lo as int)
                    },
                    None => runs_from(self@, 0) == done + runs_from(self@, cpu as int),
                },
            decreases CPU_SETSIZE - cpu,
        {
            if self.is_set(cpu) {
                if start.is_none() {
                    start = Some(cpu);
                }
            } else if let Some(lo) = start {
                proof {
                    lemma_run_end_at(self@, lo as int, cpu - 1);
                }
                push_range(&mut result, lo, cpu - 1, &mut first, Ghost(done));
                proof {
                    let run = (lo as int, cpu - 1);
                    assert(done.push(run) + runs_from(self@, cpu + 1) =~= done + (seq![run]
                        + runs_from(self@, cpu as int)));
                    done = done.push(run);
                }
                start = None;
            }
            cpu = cpu + 1;
        }
        if let Some(lo) = start {
            proof {
                lemma_run_end_at(self@, lo as int, cpu - 1);
            }
            push_range(&mut result, lo, CPU_SETSIZE - 1, &mut first, Ghost(done));
            proof {
                let run = (lo as int, cpu - 1);
                assert(done.push(run) =~= done + (seq![run] + runs_from(self@, cpu as int)));
                done = done.push(run);
            }
        }
        assert(done =~= runs_from(self@, 0));
        result
    }

    /// The set for people to read: its range string in `CpuSet(..)`.
    pub fn debug_text(&self) -> (r: String)
        ensures
            r@ == "CpuSet("@ + range_string(self@) + ")"@,
    {
        let mut r = String::new();
        r.append("CpuSet(");
        let inner = self.to_range_string();
        r.append(inner.as_str());
        r.append(")");
        assert(r@ =~= "CpuSet("@ + range_string(self@) + ")"@);
        r
    }
}

/// A formatter of the standard library. Nothing inside of it is visible here.
#[verifier::external_type_specification]
#[verifier::external_body]
pub struct ExFormatter<'a>(core::fmt::Formatter<'a>);

/// The error with which a formatter tells that it could not write.
#[verifier::external_type_specification]
#[verifier::external_body]
pub struct ExFormatError(core::fmt::Error);

/// The text that the buffer of a formatter holds.
pub uninterp spec fn written_text(f: core::fmt::Formatter<'_>) -> Seq<char>;

/// `core::fmt::Formatter::write_str` writes a text as it is to the buffer of the
/// formatter, behind what the buffer holds, and succeeds only if the whole of it was
/// written. When it succeeds, and what the buffer holds after a failure, rests on the
/// buffer.
pub assume_specification<'a>[ core::fmt::Formatter::<'a>::write_str ](
    f: &mut core::fmt::Formatter<'a>,
    data: &str,
) -> (r: core::fmt::Result)
    ensures
        r is Ok ==> written_text(*final(f)) == written_text(*old(f)) + data@,
;

impl core::fmt::Debug for CpuSet {
    /// Writes the set for people to read, as `debug_text` gives it.
    fn fmt(&self, f: &mut core::fmt::Formatter<'_>) -> (r: core::fmt::Result)
        ensures
            r is Ok ==> written_text(*final(f)) == written_text(*old(f)) + ("CpuSet("@
                + range_string(self@) + ")"@),
    {
        let text = self.debug_text();
        f.write_str(text.as_str())
    }
}

// ---------------------------------------------------------------------------
// Reading CPU lists
// ---------------------------------------------------------------------------
/// The number that `s` writes. The largest number of machine size counts as no
/// number.
pub open spec fn cpu_number(s: Seq<char>) -> Option<nat> {
    match number::spec_parse_unsigned(s, usize::MAX as nat) {
        Some(v) => if v == usize::MAX {
            None
        } else {
            Some(v)
        },
        None => None,
    }
}

/// The least and the greatest CPU that one part of a CPU list names: a single
/// number, or two numbers in either order around a hyphen. If what follows the
/// hyphen is no number, the first number stands for both.
pub open spec fn part_bounds(part: Seq<char>) -> Option<(nat, nat)> {
    match text::index_of(part, '-') {
        Some(p) => match cpu_number(part.take(p)) {
            Some(a) => {
                let b = match number::spec_parse_unsigned(part.skip(p + 1), usize::MAX as nat) {
                    Some(b) => b,
                    None => a,
                };
                if a > b {
                    Some((b, a))
                } else {
                    Some((a, b))
                }
            },
            None => None,
        },
        None => match cpu_number(part) {
            Some(a) => Some((a, a)),
            None => None,
        },
    }
}

/// Whether one part of a CPU list names `cpu`.
pub open spec fn part_names(part: Seq<char>, cpu: int) -> bool {
    match part_bounds(text::spec_trim(part)) {
        Some((lo, hi)) => lo <= cpu <= hi,
        None => false,
    }
}

/// Whether a CPU list names `cpu` in one of its parts.
pub open spec fn list_names(list: Seq<char>, cpu: int) -> bool {
    exists|k: int|
        0 <= k < text::spec_split(list, ',').len() && part_names(
            #[trigger] text::spec_split(list, ',')[k],
            cpu,
        )
}

/// The CPUs that a CPU list names, of those below `CPU_SETSIZE` and, if `present`
/// is given, of those in it.
pub open spec fn spec_parse_cpu_ranges(list: Seq<char>, present: Option<Set<int>>) -> Set<int> {
    Set::new(
        |cpu: int|
            0 <= cpu < CPU_SETSIZE && list_names(list, cpu) && (present matches Some(p) ==> p.contains(
                cpu,
            )),
    )
}

/// The contents of an optional set.
pub open spec fn optional_view(s: Option<&CpuSet>) -> Option<Set<int>> {
    match s {
        Some(c) => Some(c@),
        None => None,
    }
}

fn read_cpu_number(s: &str) -> (r: Option<usize>)
    ensures
        match cpu_number(s@) {
            Some(v) => r == Some(v as usize) && v < usize::MAX,
            None => r is None,
        },
{
    match number::parse_usize(s) {
        Some(v) => if v == usize::MAX {
            None
        } else {
            Some(v)
        },
        None => None,
    }
}

fn read_part(part: &str) -> (r: Option<(usize, usize)>)
    ensures
        match part_bounds(part@) {
            Some((lo, hi)) => r == Some((lo as usize, hi as usize)) && lo <= hi <= usize::MAX,
            None => r is None,
        },
{
    match text::find(part, '-') {
        Some(p) => {
            let a: usize = match read_cpu_number(text::before(part, p)) {
                Some(a) => a,
                None => {
                    return None;
                },
            };
            let b: usize = match number::parse_usize(text::after(part, p + 1)) {
                Some(b) => b,
                None => a,
            };
            if a > b {
                Some((b, a))
            } else {
                Some((a, b))
            }
        },
        None => match read_cpu_number(part) {
            Some(a) => Some((a, a)),
            None => None,
        },
    }
}

/// Reads a CPU list such as `0-3,5,7-8`. Parts that name no CPU are skipped.
pub fn parse_cpu_ranges(spec: &str, present: Option<&CpuSet>) -> (r: CpuSet)
    ensures
        r@ == spec_parse_cpu_ranges(spec@, optional_view(present)),
{
    let mut set = CpuSet::new();
    let parts = text::split(spec, ',');
    let ghost pieces = text::spec_split(spec@, ',');
    let ghost limit = optional_view(present);
    let mut k: usize = 0;
    while k < parts.len()
        invariant
            k <= parts.len(),
            text::slices(parts@) == pieces,
            limit == optional_view(present),
            forall|cpu: int| #[trigger]
                set@.contains(cpu) <==> {
                    &&& 0 <= cpu < CPU_SETSIZE
                    &&& limit matches Some(p) ==> p.contains(cpu)
                    &&& exists|j: int| 0 <= j < k && part_names(#[trigger] pieces[j], cpu)
                },
        decreases parts.len() - k,
    {
        let part = text::trim(parts[k]);
        let ghost before_set = set@;
        assert(pieces[k as int] == parts@[k as int]@);
        if let Some((lo, hi)) = read_part(part) {
            let mut i: usize = lo;
            while i <= hi && i < CPU_SETSIZE
                invariant
                    lo <= i,
                    limit == optional_view(present),
                    forall|cpu: int| #[trigger]
                        set@.contains(cpu) <==> before_set.contains(cpu) || {
                            &&& lo <= cpu < i
                            &&& cpu <= hi
                            &&& cpu < CPU_SETSIZE
                            &&& limit matches Some(p) ==> p.contains(cpu)
                        },
                decreases CPU_SETSIZE - i,
            {
                let wanted: bool = match present {
                    Some(p) => p.is_set(i),
                    None => true,
                };
                if wanted {
                    set.set(i);
                }
                i = i + 1;
            }
        }
        proof {
            assert forall|cpu: int| #[trigger] set@.contains(cpu) <==> {
                &&& 0 <= cpu < CPU_SETSIZE
                &&& limit matches Some(p) ==> p.contains(cpu)
                &&& exists|j: int| 0 <= j < k + 1 && part_names(#[trigger] pieces[j], cpu)
            } by {
                if part_names(pieces[k as int], cpu) {
                } else {
                    if exists|j: int| 0 <= j < k + 1 && part_names(#[trigger] pieces[j], cpu) {
                        let j = choose|j: int| 0 <= j < k + 1 && part_names(#[trigger] pieces[j], cpu);
                        assert(j < k);
                    }
                }
            }
        }
        k = k + 1;
    }
    assert(set@ =~= spec_parse_cpu_ranges(spec@, limit));
    set
}

// ---------------------------------------------------------------------------
// Topology and CPU specifications
// ---------------------------------------------------------------------------
/// The CPUs of a device and how they are tiered.
pub struct CpuTopology {
    /// The CPUs that the device has.
    pub present_cpus: CpuSet,
    /// The text from which `present_cpus` was read.
    pub present_str: String,
    /// The memory nodes that a CPU set directory gets.
    pub mems_str: String,
    /// Whether CPU set directories can be used.
    pub cpuset_enabled: bool,
    /// The CPUs of the lowest top frequency.
    pub e_core: CpuSet,
    /// The CPUs between the lowest and the highest top frequency.
    pub p_core: CpuSet,
    /// The CPUs of the highest top frequency.
    pub hp_core: CpuSet,
}

impl Clone for CpuTopology {
    fn clone(&self) -> (r: Self)
        ensures
            r == *self,
    {
        CpuTopology {
            present_cpus: self.present_cpus,
            present_str: self.present_str.clone(),
            mems_str: self.mems_str.clone(),
            cpuset_enabled: self.cpuset_enabled,
            e_core: self.e_core,
            p_core: self.p_core,
            hp_core: self.hp_core,
        }
    }
}

/// The CPUs for which one part of a CPU specification stands: a tier, all present
/// CPUs, or a CPU list restricted to the present CPUs.
pub open spec fn part_cpus(part: Seq<char>, topo: CpuTopology) -> Set<int> {
    if part == "e-core"@ {
        topo.e_core@
    } else if part == "p-core"@ {
        topo.p_core@
    } else if part == "hp-core"@ {
        topo.hp_core@
    } else if part == "all-core"@ {
        topo.present_cpus@
    } else {
        spec_parse_cpu_ranges(part, Some(topo.present_cpus@))
    }
}

/// The CPUs for which a CPU specification stands: the union over its parts.
pub open spec fn spec_parse_cpu_spec(spec: Seq<char>, topo: CpuTopology) -> Set<int> {
    Set::new(
        |cpu: int|
            exists|k: int|
                0 <= k < text::spec_split(spec, ',').len() && part_cpus(
                    text::spec_trim(#[trigger] text::spec_split(spec, ',')[k]),
                    topo,
                ).contains(cpu),
    )
}

/// Reads a CPU specification: tier names and CPU lists, with commas between them.
pub fn parse_cpu_spec(spec: &str, topo: &CpuTopology) -> (r: CpuSet)
    ensures
        r@ == spec_parse_cpu_spec(spec@, *topo),
{
    let mut set = CpuSet::new();
    let parts = text::split(spec, ',');
    let ghost pieces = text::spec_split(spec@, ',');
    let mut k: usize = 0;
    while k < parts.len()
        invariant
            k <= parts.len(),
            text::slices(parts@) == pieces,
            forall|cpu: int| #[trigger]
                set@.contains(cpu) <==> exists|j: int|
                    0 <= j < k && part_cpus(
                        text::spec_trim(#[trigger] pieces[j]),
                        *topo,
                    ).contains(cpu),
        decreases parts.len() - k,
    {
        let part = text::trim(parts[k]);
        let ghost before_set = set@;
        assert(pieces[k as int] == parts@[k as int]@);
        if text::same(part, "e-core") {
            set.or(&topo.e_core);
        } else if text::same(part, "p-core") {
            set.or(&topo.p_core);
        } else if text::same(part, "hp-core") {
            set.or(&topo.hp_core);
        } else if text::same(part, "all-core") {
            set.or(&topo.present_cpus);
        } else {
            set.or(&parse_cpu_ranges(part, Some(&topo.present_cpus)));
        }
        proof {
            let here = part_cpus(text::spec_trim(pieces[k as int]), *topo);
            assert(set@ == before_set.union(here));
            assert forall|cpu: int| #[trigger] set@.contains(cpu) <==> exists|j: int|
                0 <= j < k + 1 && part_cpus(
                    text::spec_trim(#[trigger] pieces[j]),
                    *topo,
                ).contains(cpu) by {
                if !here.contains(cpu) {
                    if exists|j: int|
                        0 <= j < k + 1 && part_cpus(
                            text::spec_trim(#[trigger] pieces[j]),
                            *topo,
                        ).contains(cpu) {
                        let j = choose|j: int|
                            0 <= j < k + 1 && part_cpus(
                                text::spec_trim(#[trigger] pieces[j]),
                                *topo,
                            ).contains(cpu);
                        assert(j < k);
                    }
                }
            }
        }
        k = k + 1;
    }
    assert(set@ =~= spec_parse_cpu_spec(spec@, *topo));
    set
}

// ---------------------------------------------------------------------------
// CPU set directories
// ---------------------------------------------------------------------------
/// The name of the base directory unless another is chosen.
pub const DEFAULT_CPUSET_NAME: &'static str = "ThreadOpt";

/// The base directory, which can be chosen once.
pub struct BaseCpuset {
    chosen: Option<String>,
}

impl BaseCpuset {
    /// The path that was chosen, if one was.
    pub closed spec fn choice(self) -> Option<Seq<char>> {
        match self.chosen {
            Some(s) => Some(s@),
            None => None,
        }
    }

    /// The path in use: the chosen one, or the default.
    pub open spec fn path(self) -> Seq<char> {
        match self.choice() {
            Some(p) => p,
            None => "/dev/cpuset/ThreadOpt"@,
        }
    }

    /// Nothing is chosen yet.
    pub fn new() -> (r: Self)
        ensures
            r.choice() is None,
    {
        BaseCpuset { chosen: None }
    }
}

/// Whether `name` can name a base directory: it is not empty and holds no slash.
pub open spec fn is_cpuset_name(name: Seq<char>) -> bool {
    name.len() > 0 && text::index_of(name, '/') is None
}

/// Tests a name for a base directory.
pub fn valid_cpuset_name(name: &str) -> (r: bool)
    ensures
        r == is_cpuset_name(name@),
{
    !name.is_empty() && text::find(name, '/').is_none()
}

/// Chooses the base directory by its name. A name that cannot name one, and any
/// choice after the first, is ignored.
pub fn set_base_cpuset(base: &mut BaseCpuset, name: &str)
    ensures
        final(base).choice() == if is_cpuset_name(name@) && old(base).choice() is None {
            Some("/dev/cpuset/"@ + name@)
        } else {
            old(base).choice()
        },
{
    if valid_cpuset_name(name) && base.chosen.is_none() {
        let mut path = String::new();
        path.append("/dev/cpuset/");
        path.append(name);
        assert(path@ =~= "/dev/cpuset/"@ + name@);
        base.chosen = Some(path);
    }
}

/// The path of the base directory.
pub fn base_cpuset(base: &BaseCpuset) -> (r: &str)
    ensures
        r@ == base.path(),
{
    match &base.chosen {
        Some(s) => s.as_str(),
        None => "/dev/cpuset/ThreadOpt",
    }
}

/// A CPU set directory that is to exist, with what is to stand in it.
pub struct CpusetDir {
    pub path: String,
    pub cpus: String,
    pub mems: String,
}

impl CpusetDir {
    /// The file that lists the directory's CPUs.
    pub fn cpus_path(&self) -> (r: String)
        ensures
            r@ == self.path@ + "/cpus"@,
    {
        let mut r = self.path.clone();
        r.append("/cpus");
        r
    }

    /// The file that lists the directory's memory nodes.
    pub fn mems_path(&self) -> (r: String)
        ensures
            r@ == self.path@ + "/mems"@,
    {
        let mut r = self.path.clone();
        r.append("/mems");
        r
    }
}

/// The directory for a set of CPUs: under the base directory, named by the set's
/// range string. There is none if CPU set directories cannot be used.
pub fn cpuset_dir(cpus: &CpuSet, topo: &CpuTopology, base: &str) -> (r: Option<CpusetDir>)
    ensures
        r is Some == topo.cpuset_enabled,
        r matches Some(d) ==> {
            &&& d.path@ == base@ + "/"@ + range_string(cpus@)
            &&& d.cpus@ == range_string(cpus@)
            &&& d.mems@ == topo.mems_str@
        },
{
    if !topo.cpuset_enabled {
        return None;
    }
    let name = cpus.to_range_string();
    let mut path = String::new();
    path.append(base);
    path.append("/");
    path.append(name.as_str());
    assert(path@ =~= base@ + "/"@ + range_string(cpus@));
    Some(CpusetDir { path, cpus: name, mems: topo.mems_str.clone() })
}

/// The name under which the directory for a set of CPUs is known, given whether
/// it could be made: empty if it could not, or if CPU set directories cannot be
/// used.
pub open spec fn ensured_dir(cpus: Set<int>, topo: CpuTopology, created: bool) -> Seq<char> {
    if topo.cpuset_enabled && created {
        range_string(cpus)
    } else {
        Seq::empty()
    }
}

/// Names the directory for a set of CPUs. `created` is whether making the
/// directory that `cpuset_dir` describes succeeded.
pub fn ensure_cpuset_dir(cpus: &CpuSet, topo: &CpuTopology, created: bool) -> (r: String)
    ensures
        r@ == ensured_dir(cpus@, *topo, created),
{
    if topo.cpuset_enabled && created {
        cpus.to_range_string()
    } else {
        String::new()
    }
}

/// The steps by which a CPU set directory is made, and how that ended.
#[derive(Clone, Copy, Debug, PartialEq, Eq, Structural)]
pub enum DirStep {
    MakeDir,
    SetMode,
    SetOwner,
    WriteCpus,
    WriteMems,
    Finished(bool),
}

/// How a step went.
#[derive(Clone, Copy, Debug, PartialEq, Eq, Structural)]
pub enum DirOutcome {
    Done,
    AlreadyExists,
    Failed,
}

/// The step after `step`, which went as `outcome` says. That the directory exists
/// already is no failure of the step that makes it.
pub open spec fn next_dir_step(step: DirStep, outcome: DirOutcome) -> DirStep {
    match step {
        DirStep::MakeDir => if outcome == DirOutcome::Failed {
            DirStep::Finished(false)
        } else {
            DirStep::SetMode
        },
        DirStep::SetMode => if outcome == DirOutcome::Done {
            DirStep::SetOwner
        } else {
            DirStep::Finished(false)
        },
        DirStep::SetOwner => if outcome == DirOutcome::Done {
            DirStep::WriteCpus
        } else {
            DirStep::Finished(false)
        },
        DirStep::WriteCpus => if outcome == DirOutcome::Done {
            DirStep::WriteMems
        } else {
            DirStep::Finished(false)
        },
        DirStep::WriteMems => DirStep::Finished(outcome == DirOutcome::Done),
        DirStep::Finished(ok) => DirStep::Finished(ok),
    }
}

/// Decides how making a CPU set directory goes on. It starts with
/// `DirStep::MakeDir` and is over at `DirStep::Finished`.
pub fn create_cpuset_dir(step: DirStep, outcome: DirOutcome) -> (r: DirStep)
    ensures
        r == next_dir_step(step, outcome),
{
    match step {
        DirStep::MakeDir => match outcome {
            DirOutcome::Failed => DirStep::Finished(false),
            _ => DirStep::SetMode,
        },
        DirStep::Finished(ok) => DirStep::Finished(ok),
        DirStep::WriteMems => match outcome {
            DirOutcome::Done => DirStep::Finished(true),
            _ => DirStep::Finished(false),
        },
        _ => match outcome {
            DirOutcome::Done => match step {
                DirStep::SetMode => DirStep::SetOwner,
                DirStep::SetOwner => DirStep::WriteCpus,
                _ => DirStep::WriteMems,
            },
            _ => DirStep::Finished(false),
        },
    }
}

/// Making a directory succeeds exactly if every step succeeds, where the first may
/// also find the directory in place, and it takes at most five steps.
pub proof fn law_dir_needs_every_step(a: DirOutcome, b: DirOutcome, c: DirOutcome, d: DirOutcome, e: DirOutcome)
    ensures
        ({
            let s1 = next_dir_step(DirStep::MakeDir, a);
            let s2 = next_dir_step(s1, b);
            let s3 = next_dir_step(s2, c);
            let s4 = next_dir_step(s3, d);
            let s5 = next_dir_step(s4, e);
            s5 == DirStep::Finished(
                a != DirOutcome::Failed && b == DirOutcome::Done && c == DirOutcome::Done && d
                    == DirOutcome::Done && e == DirOutcome::Done,
            )
        }),
{
}

} // verus!
