//! Matching threads with rules.

use vstd::prelude::*;

use crate::config::AffinityRule;
use crate::config::AppConfig;
use crate::cpuset;
use crate::cpuset::CpuSet;
use crate::cpuset::CpuTopology;
use crate::cpuset::CpusetDir;
use crate::text;
use crate::MAX_THREAD_LEN;

verus! {

// ---------------------------------------------------------------------------
// Patterns
// ---------------------------------------------------------------------------
/// The members of a bracketed class, each as its least and greatest character, and the
/// position after the class, if the class that is read from position `i` on is
/// closed. A closing bracket that is the class's first member stands for itself.
pub open spec fn class_items(p: Seq<char>, i: int, first: bool) -> Option<(Seq<(char, char)>, int)>
    decreases p.len() - i,
{
    if i >= p.len() {
        None
    } else if p[i] == ']' && !first {
        Some((Seq::empty(), i + 1))
    } else if i + 2 < p.len() && p[i + 1] == '-' && p[i + 2] != ']' {
        match class_items(p, i + 3, false) {
            Some((items, end)) => Some((seq![(p[i], p[i + 2])] + items, end)),
            None => None,
        }
    } else {
        match class_items(p, i + 1, false) {
            Some((items, end)) => Some((seq![(p[i], p[i])] + items, end)),
            None => None,
        }
    }
}

/// Whether the class at the start of `p` is negated.
pub open spec fn class_negated(p: Seq<char>) -> bool {
    p.len() > 1 && (p[1] == '!' || p[1] == '^')
}

/// The members of the class at the start of `p` and the position after it.
pub open spec fn class_at(p: Seq<char>) -> Option<(Seq<(char, char)>, int)> {
    class_items(
        p,
        if class_negated(p) {
            2
        } else {
            1
        },
        true,
    )
}

/// Whether `c` is in one of the ranges.
pub open spec fn in_ranges(items: Seq<(char, char)>, c: char) -> bool {
    exists|k: int| 0 <= k < items.len() && (#[trigger] items[k]).0 <= c <= items[k].1
}

/// The position after the class at the start of `p`, if the class is closed and
/// accepts `c`.
pub open spec fn class_accepts(p: Seq<char>, c: char) -> Option<int> {
    match class_at(p) {
        Some((items, end)) => if in_ranges(items, c) != class_negated(p) {
            Some(end)
        } else {
            None
        },
        None => None,
    }
}

/// Whether the pattern `p` matches the whole of `s`, character by character: `*`
/// stands for any characters, `?` for exactly one, a bracketed class for one that it
/// accepts, and any other character for itself.
pub open spec fn glob(p: Seq<char>, s: Seq<char>) -> bool
    decreases p.len(), s.len(),
{
    if p.len() == 0 {
        s.len() == 0
    } else if p[0] == '*' {
        glob(p.skip(1), s) || (s.len() > 0 && glob(p, s.skip(1)))
    } else if s.len() == 0 {
        false
    } else if p[0] == '?' {
        glob(p.skip(1), s.skip(1))
    } else if p[0] == '[' {
        match class_accepts(p, s[0]) {
            Some(end) => 0 < end <= p.len() && glob(p.skip(end), s.skip(1)),
            None => false,
        }
    } else {
        s[0] == p[0] && glob(p.skip(1), s.skip(1))
    }
}

/// The position after a closed class is within the pattern.
pub proof fn lemma_class_end(p: Seq<char>, i: int, first: bool)
    requires
        0 <= i,
    ensures
        class_items(p, i, first) matches Some((items, end)) ==> i < end <= p.len(),
    decreases p.len() - i,
{
    if i >= p.len() {
    } else if p[i] == ']' && !first {
    } else if i + 2 < p.len() && p[i + 1] == '-' && p[i + 2] != ']' {
        lemma_class_end(p, i + 3, false);
    } else {
        lemma_class_end(p, i + 1, false);
    }
}

/// One star does what several in a row do.
pub proof fn lemma_star_star(p: Seq<char>, s: Seq<char>)
    requires
        p.len() >= 2,
        p[0] == '*',
        p[1] == '*',
    ensures
        glob(p, s) == glob(p.skip(1), s),
    decreases s.len(),
{
    if s.len() > 0 {
        lemma_star_star(p, s.skip(1));
    }
}

/// Finds where the class at the start of `p` ends, if it accepts `c`.
fn match_class(p: &[char], c: char) -> (r: Option<usize>)
    ensures
        text::position(r) == class_accepts(p@, c),
        r matches Some(end) ==> 0 < end <= p@.len(),
{
    let mut i: usize = 1;
    let mut negate: bool = false;
    if i < p.len() && (p[i] == '!' || p[i] == '^') {
        negate = true;
        i = i + 1;
    }
    let ghost start = i as int;
    let ghost goal = class_items(p@, start, true);
    let ghost mut seen: Seq<(char, char)> = Seq::empty();
    let mut matched: bool = false;
    let mut first: bool = true;
    proof {
        lemma_class_end(p@, start, true);
        match goal {
            Some((items, end)) => {
                assert(seen + items =~= items);
            },
            None => {},
        }
    }
    while i < p.len()
        invariant
            1 <= i,
            negate == class_negated(p@),
            goal == class_at(p@),
            goal matches Some((items, end)) ==> 0 < end <= p@.len(),
            matched == in_ranges(seen, c),
            match class_items(p@, i as int, first) {
                Some((rest, end)) => goal == Some((seen + rest, end)),
                None => goal is None,
            },
        decreases p.len() - i,
    {
        if p[i] == ']' && !first {
            assert(seen + Seq::<(char, char)>::empty() =~= seen);
            return if matched != negate {
                Some(i + 1)
            } else {
                None
            };
        }
        let ghost before_seen = seen;
        if p.len() - i > 2 && p[i + 1] == '-' && p[i + 2] != ']' {
            let ghost item = (p@[i as int], p@[i + 2]);
            proof {
                seen = seen.push(item);
                lemma_in_ranges_push(before_seen, item, c);
                lemma_item_moves(p@, before_seen, item, i + 3);
            }
            if p[i] <= c && c <= p[i + 2] {
                matched = true;
            }
            i = i + 3;
        } else {
            let ghost item = (p@[i as int], p@[i as int]);
            proof {
                seen = seen.push(item);
                lemma_in_ranges_push(before_seen, item, c);
                lemma_item_moves(p@, before_seen, item, i + 1);
            }
            if p[i] == c {
                matched = true;
            }
            i = i + 1;
        }
        first = false;
    }
    None
}

proof fn lemma_in_ranges_push(items: Seq<(char, char)>, item: (char, char), c: char)
    ensures
        in_ranges(items.push(item), c) == (in_ranges(items, c) || item.0 <= c <= item.1),
{
    let all = items.push(item);
    if in_ranges(items, c) {
        let k = choose|k: int| 0 <= k < items.len() && (#[trigger] items[k]).0 <= c <= items[k].1;
        assert(all[k] == items[k]);
    }
    if item.0 <= c <= item.1 {
        assert(all[items.len() as int] == item);
    }
    if in_ranges(all, c) {
        let k = choose|k: int| 0 <= k < all.len() && (#[trigger] all[k]).0 <= c <= all[k].1;
        if k < items.len() {
            assert(items[k] == all[k]);
        }
    }
}

proof fn lemma_item_moves(p: Seq<char>, seen: Seq<(char, char)>, item: (char, char), i: int)
    ensures
        class_items(p, i, false) matches Some((rest, end)) ==> seen + (seq![item] + rest)
            == seen.push(item) + rest,
{
    match class_items(p, i, false) {
        Some((rest, end)) => {
            assert(seen + (seq![item] + rest) =~= seen.push(item) + rest);
        },
        None => {},
    }
}

/// Matches a pattern with the whole of a text.
pub fn match_pattern(p: &[char], s: &[char]) -> (r: bool)
    ensures
        r == glob(p@, s@),
    decreases p@.len(),
{
    if p.len() == 0 {
        return s.len() == 0;
    }
    let c: char = p[0];
    if c == '*' {
        let mut j: usize = 1;
        assert(p@.skip(0) =~= p@);
        while j < p.len() && p[j] == '*'
            invariant
                1 <= j <= p@.len(),
                p@[j - 1] == '*',
                glob(p@, s@) == glob(p@.skip(j - 1), s@),
            decreases p.len() - j,
        {
            proof {
                lemma_star_star(p@.skip(j - 1), s@);
                assert(p@.skip(j - 1).skip(1) =~= p@.skip(j as int));
            }
            j = j + 1;
        }
        let rest = vstd::slice::slice_subrange(p, j, p.len());
        proof {
            assert(rest@ =~= p@.skip(j as int));
            assert(p@.skip(j - 1).skip(1) =~= rest@);
        }
        let mut i: usize = 0;
        assert(s@.skip(0) =~= s@);
        loop
            invariant
                i <= s@.len(),
                rest@.len() < p@.len(),
                p@.skip(j - 1).len() > 0,
                p@.skip(j - 1)[0] == '*',
                p@.skip(j - 1).skip(1) == rest@,
                glob(p@, s@) == glob(p@.skip(j - 1), s@.skip(i as int)),
            decreases s@.len() - i,
        {
            assert(i < s@.len() ==> s@.skip(i as int).skip(1) =~= s@.skip(i + 1));
            let tail = vstd::slice::slice_subrange(s, i, s.len());
            assert(tail@ =~= s@.skip(i as int));
            if match_pattern(rest, tail) {
                return true;
            }
            if i >= s.len() {
                return false;
            }
            i = i + 1;
        }
    }
    if s.len() == 0 {
        return false;
    }
    let tail = vstd::slice::slice_subrange(s, 1, s.len());
    assert(tail@ =~= s@.skip(1));
    if c == '[' {
        match match_class(p, s[0]) {
            Some(end) => {
                let rest = vstd::slice::slice_subrange(p, end, p.len());
                assert(rest@ =~= p@.skip(end as int));
                match_pattern(rest, tail)
            },
            None => false,
        }
    } else {
        let rest = vstd::slice::slice_subrange(p, 1, p.len());
        assert(rest@ =~= p@.skip(1));
        (c == '?' || s[0] == c) && match_pattern(rest, tail)
    }
}

/// Whether a thread-name pattern matches a thread name. A name of too many bytes
/// matches no pattern.
pub open spec fn spec_fnmatch(pattern: Seq<char>, name: Seq<char>) -> bool {
    vstd::utf8::encode_utf8(name).len() < MAX_THREAD_LEN && glob(pattern, name)
}

/// Matches a thread-name pattern with a thread name.
pub fn fnmatch_c(pattern: &str, string: &str) -> (r: bool)
    ensures
        r == spec_fnmatch(pattern@, string@),
{
    if string.as_bytes().len() >= MAX_THREAD_LEN {
        return false;
    }
    let p = text::chars(pattern);
    let s = text::chars(string);
    match_pattern(p.as_slice(), s.as_slice())
}

// ---------------------------------------------------------------------------
// Affinity of a thread
// ---------------------------------------------------------------------------
/// What a thread is to be bound to.
pub struct AffinityResult {
    pub cpus: CpuSet,
    /// The CPU set directory that the thread goes to; empty if there is none.
    pub cpuset_dir: String,
    /// Whether thread rules decided.
    pub is_thread_rule: bool,
}

/// What a thread is to be bound to, for contracts.
#[verifier::ext_equal]
pub struct AffinityView {
    pub cpus: Set<int>,
    pub cpuset_dir: Seq<char>,
    pub is_thread_rule: bool,
}

impl View for AffinityResult {
    type V = AffinityView;

    open spec fn view(&self) -> AffinityView {
        AffinityView {
            cpus: self.cpus@,
            cpuset_dir: self.cpuset_dir@,
            is_thread_rule: self.is_thread_rule,
        }
    }
}

/// Whether `rule` is a thread rule of `pkg` that matches `thread`.
pub open spec fn is_thread_match(rule: AffinityRule, pkg: Seq<char>, thread: Seq<char>) -> bool {
    &&& rule.pkg@ == pkg
    &&& rule.thread@.len() > 0
    &&& spec_fnmatch(rule.thread_pattern@, thread)
}

/// Whether `rule` is for the whole of `pkg`.
pub open spec fn is_package_rule(rule: AffinityRule, pkg: Seq<char>) -> bool {
    rule.pkg@ == pkg && rule.thread@.len() == 0
}

/// Whether some thread rule decides. A thread without a name matches none.
pub open spec fn thread_matched(
    rules: Seq<AffinityRule>,
    pkg: Seq<char>,
    thread: Seq<char>,
) -> bool {
    thread.len() > 0 && exists|k: int|
        0 <= k < rules.len() && is_thread_match(#[trigger] rules[k], pkg, thread)
}

/// The CPUs of all thread rules of `pkg` that match `thread`.
pub open spec fn thread_cpus(
    rules: Seq<AffinityRule>,
    pkg: Seq<char>,
    thread: Seq<char>,
) -> Set<int> {
    Set::new(
        |cpu: int|
            exists|k: int|
                0 <= k < rules.len() && is_thread_match(#[trigger] rules[k], pkg, thread)
                    && rules[k].cpus@.contains(cpu),
    )
}

/// The rules for the whole of `pkg`.
pub open spec fn package_rules(rules: Seq<AffinityRule>, pkg: Seq<char>) -> Seq<AffinityRule> {
    rules.filter(|rule: AffinityRule| is_package_rule(rule, pkg))
}

/// The CPUs of all rules for the whole of `pkg`.
pub open spec fn package_cpus(rules: Seq<AffinityRule>, pkg: Seq<char>) -> Set<int> {
    Set::new(
        |cpu: int|
            exists|k: int|
                0 <= k < rules.len() && is_package_rule(#[trigger] rules[k], pkg)
                    && rules[k].cpus@.contains(cpu),
    )
}

/// The directory of the only rule for the whole of `pkg`; empty if there are
/// several, whose merged CPUs have no directory.
pub open spec fn package_dir(rules: Seq<AffinityRule>, pkg: Seq<char>) -> Seq<char> {
    if package_rules(rules, pkg).len() == 1 {
        package_rules(rules, pkg)[0].cpuset_dir@
    } else {
        Seq::empty()
    }
}

/// What the rules say of a thread, before its CPU set directory is made.
pub struct AffinityPlan {
    pub cpus: CpuSet,
    /// The directory of the package's rule, if no thread rule decided.
    pub package_dir: String,
    /// Whether a thread rule decided.
    pub matched: bool,
}

/// What the rules say of a thread, for contracts.
#[verifier::ext_equal]
pub struct PlanView {
    pub cpus: Set<int>,
    pub package_dir: Seq<char>,
    pub matched: bool,
}

impl View for AffinityPlan {
    type V = PlanView;

    open spec fn view(&self) -> PlanView {
        PlanView {
            cpus: self.cpus@,
            package_dir: self.package_dir@,
            matched: self.matched,
        }
    }
}

/// Thread rules decide if one matches, and the package's rules decide otherwise.
pub open spec fn planned(rules: Seq<AffinityRule>, pkg: Seq<char>, thread: Seq<char>) -> PlanView {
    if thread_matched(rules, pkg, thread) {
        PlanView {
            cpus: thread_cpus(rules, pkg, thread),
            package_dir: Seq::empty(),
            matched: true,
        }
    } else {
        PlanView {
            cpus: package_cpus(rules, pkg),
            package_dir: package_dir(rules, pkg),
            matched: false,
        }
    }
}

/// What a thread is to be bound to, once `created` tells whether the directory
/// for the CPUs of a matched thread could be made. A thread for which no CPU
/// remains is free to run anywhere if its package has thread rules, and is left
/// alone otherwise.
pub open spec fn settled(
    plan: PlanView,
    pkg: Seq<char>,
    cfg: AppConfig,
    created: bool,
) -> Option<AffinityView> {
    if plan.cpus == Set::<int>::empty() {
        if text::texts(cfg.has_thread_rules@).contains(pkg) {
            Some(
                AffinityView {
                    cpus: cfg.topo.present_cpus@,
                    cpuset_dir: Seq::empty(),
                    is_thread_rule: false,
                },
            )
        } else {
            None
        }
    } else {
        Some(
            AffinityView {
                cpus: plan.cpus,
                cpuset_dir: if plan.matched {
                    cpuset::ensured_dir(plan.cpus, cfg.topo, created)
                } else {
                    plan.package_dir
                },
                is_thread_rule: plan.matched,
            },
        )
    }
}

/// What a thread is to be bound to, for contracts.
pub open spec fn affinity_of(r: Option<AffinityResult>) -> Option<AffinityView> {
    match r {
        Some(a) => Some(a@),
        None => None,
    }
}

/// Merges the CPUs of the thread rules that match.
fn merge_thread_rules(rules: &Vec<AffinityRule>, pkg: &str, thread: &str) -> (r: (CpuSet, bool))
    ensures
        r.0@ == thread_cpus(rules@, pkg@, thread@),
        r.1 == exists|k: int|
            0 <= k < rules@.len() && is_thread_match(#[trigger] rules@[k], pkg@, thread@),
{
    let mut cpus = CpuSet::new();
    let mut matched: bool = false;
    let mut i: usize = 0;
    while i < rules.len()
        invariant
            i <= rules@.len(),
            matched == exists|k: int|
                0 <= k < i && is_thread_match(#[trigger] rules@[k], pkg@, thread@),
            forall|cpu: int| #[trigger]
                cpus@.contains(cpu) <==> exists|k: int|
                    0 <= k < i && is_thread_match(#[trigger] rules@[k], pkg@, thread@)
                        && rules@[k].cpus@.contains(cpu),
        decreases rules.len() - i,
    {
        let rule = &rules[i];
        let ghost before_cpus = cpus@;
        let hit: bool = text::same(rule.pkg.as_str(), pkg) && !rule.thread.as_str().is_empty()
            && fnmatch_c(rule.thread_pattern.as_str(), thread);
        assert(hit == is_thread_match(rules@[i as int], pkg@, thread@));
        if hit {
            cpus.or(&rule.cpus);
            matched = true;
        }
        proof {
            assert forall|cpu: int| #[trigger] cpus@.contains(cpu) <==> exists|k: int|
                0 <= k < i + 1 && is_thread_match(#[trigger] rules@[k], pkg@, thread@)
                    && rules@[k].cpus@.contains(cpu) by {
                if hit && rules@[i as int].cpus@.contains(cpu) {
                } else if exists|k: int|
                    0 <= k < i + 1 && is_thread_match(#[trigger] rules@[k], pkg@, thread@)
                        && rules@[k].cpus@.contains(cpu) {
                    let k = choose|k: int|
                        0 <= k < i + 1 && is_thread_match(#[trigger] rules@[k], pkg@, thread@)
                            && rules@[k].cpus@.contains(cpu);
                    assert(k < i);
                    assert(before_cpus.contains(cpu));
                }
            }
        }
        i = i + 1;
    }
    assert(cpus@ =~= thread_cpus(rules@, pkg@, thread@));
    (cpus, matched)
}

/// Merges the CPUs of the package's rules, and finds their directory.
fn merge_package_rules(rules: &Vec<AffinityRule>, pkg: &str) -> (r: (CpuSet, String))
    ensures
        r.0@ == package_cpus(rules@, pkg@),
        r.1@ == package_dir(rules@, pkg@),
{
    let mut cpus = CpuSet::new();
    let mut dir = String::new();
    let mut seen: bool = false;
    let mut i: usize = 0;
    proof {
        reveal(Seq::filter);
        assert(rules@.take(0) =~= Seq::<AffinityRule>::empty());
    }
    while i < rules.len()
        invariant
            i <= rules@.len(),
            seen == (package_rules(rules@.take(i as int), pkg@).len() > 0),
            dir@ == package_dir(rules@.take(i as int), pkg@),
            forall|cpu: int| #[trigger]
                cpus@.contains(cpu) <==> exists|k: int|
                    0 <= k < i && is_package_rule(#[trigger] rules@[k], pkg@)
                        && rules@[k].cpus@.contains(cpu),
        decreases rules.len() - i,
    {
        let rule = &rules[i];
        let ghost before_cpus = cpus@;
        let hit: bool = text::same(rule.pkg.as_str(), pkg) && rule.thread.as_str().is_empty();
        assert(hit == is_package_rule(rules@[i as int], pkg@));
        proof {
            reveal(Seq::filter);
            assert(rules@.take(i + 1).drop_last() =~= rules@.take(i as int));
            assert(rules@.take(i + 1).last() == rules@[i as int]);
        }
        if hit {
            cpus.or(&rule.cpus);
            if !seen {
                dir = rule.cpuset_dir.clone();
                seen = true;
            } else {
                dir = String::new();
            }
        }
        proof {
            assert forall|cpu: int| #[trigger] cpus@.contains(cpu) <==> exists|k: int|
                0 <= k < i + 1 && is_package_rule(#[trigger] rules@[k], pkg@)
                    && rules@[k].cpus@.contains(cpu) by {
                if hit && rules@[i as int].cpus@.contains(cpu) {
                } else if exists|k: int|
                    0 <= k < i + 1 && is_package_rule(#[trigger] rules@[k], pkg@)
                        && rules@[k].cpus@.contains(cpu) {
                    let k = choose|k: int|
                        0 <= k < i + 1 && is_package_rule(#[trigger] rules@[k], pkg@)
                            && rules@[k].cpus@.contains(cpu);
                    assert(k < i);
                    assert(before_cpus.contains(cpu));
                }
            }
        }
        i = i + 1;
    }
    assert(rules@.take(rules@.len() as int) =~= rules@);
    assert(cpus@ =~= package_cpus(rules@, pkg@));
    (cpus, dir)
}

/// Finds what the rules say of a thread.
pub fn plan_affinity(pkg: &str, thread: &str, cfg: &AppConfig) -> (r: AffinityPlan)
    ensures
        r@ == planned(cfg.rules@, pkg@, thread@),
{
    if !thread.is_empty() {
        let (cpus, matched) = merge_thread_rules(&cfg.rules, pkg, thread);
        if matched {
            return AffinityPlan { cpus, package_dir: String::new(), matched: true };
        }
    }
    let (cpus, package_dir) = merge_package_rules(&cfg.rules, pkg);
    AffinityPlan { cpus, package_dir, matched: false }
}

impl AffinityPlan {
    /// The CPU set directory that is to be made for this thread: one for the
    /// merged CPUs, if thread rules decided.
    pub fn wanted_dir(&self, topo: &CpuTopology, base: &str) -> (r: Option<CpusetDir>)
        ensures
            r is Some == (self.matched && topo.cpuset_enabled),
            r matches Some(d) ==> {
                &&& d.path@ == base@ + "/"@ + cpuset::range_string(self.cpus@)
                &&& d.cpus@ == cpuset::range_string(self.cpus@)
                &&& d.mems@ == topo.mems_str@
            },
    {
        if self.matched {
            cpuset::cpuset_dir(&self.cpus, topo, base)
        } else {
            None
        }
    }
}

/// Turns a plan into what the thread is to be bound to. `created` is whether the
/// directory that the plan wanted could be made.
pub fn settle_affinity(plan: AffinityPlan, pkg: &str, cfg: &AppConfig, created: bool) -> (r: Option<
    AffinityResult,
>)
    ensures
        affinity_of(r) == settled(plan@, pkg@, *cfg, created),
{
    let n: usize = plan.cpus.count();
    assert(n == 0 <==> plan.cpus@ =~= Set::<int>::empty());
    if n == 0 {
        if text::list_contains(&cfg.has_thread_rules, pkg) {
            Some(
                AffinityResult {
                    cpus: cfg.topo.present_cpus,
                    cpuset_dir: String::new(),
                    is_thread_rule: false,
                },
            )
        } else {
            None
        }
    } else if plan.matched {
        let cpuset_dir = cpuset::ensure_cpuset_dir(&plan.cpus, &cfg.topo, created);
        Some(AffinityResult { cpus: plan.cpus, cpuset_dir, is_thread_rule: true })
    } else {
        Some(
            AffinityResult {
                cpus: plan.cpus,
                cpuset_dir: plan.package_dir,
                is_thread_rule: false,
            },
        )
    }
}

/// Finds what a thread of `pkg` is to be bound to. `created` is whether the CPU
/// set directory that its plan wanted could be made; it has no influence if the
/// plan wanted none.
pub fn thread_affinity(pkg: &str, thread: &str, cfg: &AppConfig, created: bool) -> (r: Option<
    AffinityResult,
>)
    ensures
        affinity_of(r) == settled(planned(cfg.rules@, pkg@, thread@), pkg@, *cfg, created),
{
    settle_affinity(plan_affinity(pkg, thread, cfg), pkg, cfg, created)
}

// ---------------------------------------------------------------------------
// Kernel task names
// ---------------------------------------------------------------------------
/// The kernel cuts task names off. A name of this many bytes or more may be part
/// of a package name.
pub const COMM_PART_LEN: usize = 15;

/// The first package from position `i` on that begins with `comm`.
pub open spec fn first_beginning(pkgs: Seq<Seq<char>>, comm: Seq<char>, i: int) -> Option<Seq<char>>
    decreases pkgs.len() - i,
{
    if i >= pkgs.len() {
        None
    } else if comm.is_prefix_of(pkgs[i]) {
        Some(pkgs[i])
    } else {
        first_beginning(pkgs, comm, i + 1)
    }
}

/// The first package from position `i` on that ends with `comm`.
pub open spec fn first_ending(pkgs: Seq<Seq<char>>, comm: Seq<char>, i: int) -> Option<Seq<char>>
    decreases pkgs.len() - i,
{
    if i >= pkgs.len() {
        None
    } else if comm.is_suffix_of(pkgs[i]) {
        Some(pkgs[i])
    } else {
        first_ending(pkgs, comm, i + 1)
    }
}

/// The package that a kernel task name stands for: the package of that name, or,
/// for a name that may be cut off, one that begins with it, or else one that ends
/// with it.
pub open spec fn spec_comm_to_pkg(comm: Seq<char>, pkgs: Seq<Seq<char>>) -> Option<Seq<char>> {
    if pkgs.contains(comm) {
        Some(comm)
    } else if vstd::utf8::encode_utf8(comm).len() >= COMM_PART_LEN {
        match first_beginning(pkgs, comm, 0) {
            Some(p) => Some(p),
            None => first_ending(pkgs, comm, 0),
        }
    } else {
        None
    }
}

/// The text of an optional string.
pub open spec fn optional_text(r: Option<String>) -> Option<Seq<char>> {
    match r {
        Some(s) => Some(s@),
        None => None,
    }
}

/// Finds the package that a kernel task name stands for.
pub fn comm_to_pkg(comm: &str, cfg: &AppConfig) -> (r: Option<String>)
    ensures
        optional_text(r) == spec_comm_to_pkg(comm@, text::texts(cfg.pkgs@)),
{
    let ghost pkgs = text::texts(cfg.pkgs@);
    if text::list_contains(&cfg.pkgs, comm) {
        return Some(comm.to_owned());
    }
    if comm.as_bytes().len() >= COMM_PART_LEN {
        let mut i: usize = 0;
        while i < cfg.pkgs.len()
            invariant
                i <= cfg.pkgs.len(),
                pkgs == text::texts(cfg.pkgs@),
                !pkgs.contains(comm@),
                vstd::utf8::encode_utf8(comm@).len() >= COMM_PART_LEN,
                first_beginning(pkgs, comm@, 0) == first_beginning(pkgs, comm@, i as int),
            decreases cfg.pkgs.len() - i,
        {
            assert(pkgs[i as int] == cfg.pkgs@[i as int]@);
            if text::starts_with(cfg.pkgs[i].as_str(), comm) {
                return Some(cfg.pkgs[i].clone());
            }
            i = i + 1;
        }
        let mut j: usize = 0;
        while j < cfg.pkgs.len()
            invariant
                j <= cfg.pkgs.len(),
                pkgs == text::texts(cfg.pkgs@),
                !pkgs.contains(comm@),
                vstd::utf8::encode_utf8(comm@).len() >= COMM_PART_LEN,
                first_beginning(pkgs, comm@, 0) is None,
                first_ending(pkgs, comm@, 0) == first_ending(pkgs, comm@, j as int),
            decreases cfg.pkgs.len() - j,
        {
            assert(pkgs[j as int] == cfg.pkgs@[j as int]@);
            if text::ends_with(cfg.pkgs[j].as_str(), comm) {
                return Some(cfg.pkgs[j].clone());
            }
            j = j + 1;
        }
    }
    None
}

} // verus!
