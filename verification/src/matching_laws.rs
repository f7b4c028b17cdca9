//! What holds of patterns, bindings and task names, in terms of characters and rules.

use vstd::prelude::*;

use crate::config::AffinityRule;
use crate::config::AppConfig;
use crate::cpuset;
use crate::rule_match;
use crate::rule_match::AffinityPlan;
use crate::rule_match::AffinityResult;
use crate::text;

verus! {

// ---------------------------------------------------------------------------
// Patterns
// ---------------------------------------------------------------------------
/// The empty pattern matches the empty text alone.
pub proof fn law_empty_pattern(s: Seq<char>)
    ensures
        rule_match::glob(Seq::empty(), s) <==> s.len() == 0,
{
}

/// A question mark stands for exactly one character, wherever it is in a pattern.
pub proof fn law_question(rest: Seq<char>, s: Seq<char>)
    ensures
        rule_match::glob(seq!['?'] + rest, s) <==> s.len() > 0 && rule_match::glob(rest, s.skip(1)),
{
    assert((seq!['?'] + rest).skip(1) =~= rest);
}

/// A character without a meaning of its own stands for itself, wherever it is in a pattern.
pub proof fn law_plain_character(c: char, rest: Seq<char>, s: Seq<char>)
    requires
        c != '*',
        c != '?',
        c != '[',
    ensures
        rule_match::glob(seq![c] + rest, s) <==> s.len() > 0 && s[0] == c && rule_match::glob(
            rest,
            s.skip(1),
        ),
{
    assert((seq![c] + rest).skip(1) =~= rest);
}

/// Whether what stands between the brackets of a class, read from the left, names `c`:
/// three characters with a hyphen in the middle name a range, and any other character
/// itself.
pub open spec fn names_character(body: Seq<char>, c: char) -> bool
    decreases body.len(),
{
    if body.len() == 0 {
        false
    } else if body.len() >= 3 && body[1] == '-' {
        body[0] <= c <= body[2] || names_character(body.skip(3), c)
    } else {
        body[0] == c || names_character(body.skip(1), c)
    }
}

proof fn lemma_closed_class(p: Seq<char>, start: int, end: int, i: int, c: char)
    requires
        0 <= start <= i <= end < p.len(),
        start < end,
        p[end] == ']',
        forall|k: int| start < k < end ==> #[trigger] p[k] != ']',
    ensures
        rule_match::class_items(p, i, i == start) matches Some((items, after)) && after == end + 1
            && rule_match::in_ranges(items, c) == names_character(p.subrange(i, end), c),
    decreases end - i,
{
    let body = p.subrange(i, end);
    if i < end {
        let wide = i + 2 < end && p[i + 1] == '-';
        let step: int = if wide {
            3
        } else {
            1
        };
        lemma_closed_class(p, start, end, i + step, c);
        assert(body.skip(step) =~= p.subrange(i + step, end));
        let item = if wide {
            (p[i], p[i + 2])
        } else {
            (p[i], p[i])
        };
        if i + 1 < body.len() + i {
            assert(body[1] == p[i + 1]);
        }
        if wide {
            assert(body[2] == p[i + 2]);
            assert(p[i + 2] != ']');
        }
        let (rest, after) = rule_match::class_items(p, i + step, false)->0;
        let all = seq![item] + rest;
        assert(rule_match::class_items(p, i, i == start) == Some((all, end + 1)));
        if rule_match::in_ranges(rest, c) {
            let k = choose|k: int|
                0 <= k < rest.len() && (#[trigger] rest[k]).0 <= c <= rest[k].1;
            assert(all[k + 1] == rest[k]);
        }
        assert(all[0] == item);
        if rule_match::in_ranges(all, c) && !(item.0 <= c <= item.1) {
            let k = choose|k: int| 0 <= k < all.len() && (#[trigger] all[k]).0 <= c <= all[k].1;
            assert(rest[k - 1] == all[k]);
        }
    } else {
        assert(body =~= Seq::<char>::empty());
    }
}

proof fn lemma_open_class(p: Seq<char>, i: int, first: bool)
    requires
        0 <= i,
        forall|k: int| i < k < p.len() ==> #[trigger] p[k] != ']',
        !first && i < p.len() ==> p[i] != ']',
    ensures
        rule_match::class_items(p, i, first) is None,
    decreases p.len() - i,
{
    if i < p.len() {
        lemma_open_class(p, i + 1, false);
        if i + 2 < p.len() {
            lemma_open_class(p, i + 3, false);
        }
    }
}

/// A class goes from its opening bracket to the first closing one behind its first member,
/// and stands for exactly one character: one that it names, or, if an exclamation mark or a
/// caret comes first, one that it does not name. A class without its closing bracket matches
/// nothing.
pub proof fn law_class(p: Seq<char>, s: Seq<char>, end: int)
    requires
        p.len() > 0,
        p[0] == '[',
    ensures
        ({
            let negated = p.len() > 1 && (p[1] == '!' || p[1] == '^');
            let start: int = if negated {
                2
            } else {
                1
            };
            &&& (forall|k: int| start < k < p.len() ==> #[trigger] p[k] != ']')
                ==> !rule_match::glob(p, s)
            &&& (start < end < p.len() && p[end] == ']' && forall|k: int|
                start < k < end ==> #[trigger] p[k] != ']') ==> (rule_match::glob(p, s) <==> s.len()
                > 0 && names_character(p.subrange(start, end), s[0]) != negated && rule_match::glob(
                p.skip(end + 1),
                s.skip(1),
            ))
        }),
{
    let negated = p.len() > 1 && (p[1] == '!' || p[1] == '^');
    let start: int = if negated {
        2
    } else {
        1
    };
    if forall|k: int| start < k < p.len() ==> #[trigger] p[k] != ']' {
        lemma_open_class(p, start, true);
    }
    if start < end < p.len() && p[end] == ']' && forall|k: int|
        start < k < end ==> #[trigger] p[k] != ']' {
        if s.len() > 0 {
            lemma_closed_class(p, start, end, start, s[0]);
        }
    }
}

/// A thread name is matched by a pattern exactly if it has fewer than 32 bytes and its
/// characters are matched.
pub proof fn law_name_limit(pattern: Seq<char>, name: Seq<char>)
    ensures
        rule_match::spec_fnmatch(pattern, name) <==> vstd::utf8::encode_utf8(name).len() < 32
            && rule_match::glob(pattern, name),
{
}

// ---------------------------------------------------------------------------
// Bindings
// ---------------------------------------------------------------------------
/// Whether a rule is for threads of the package with this name.
pub open spec fn is_for_thread(rule: AffinityRule, pkg: Seq<char>, thread: Seq<char>) -> bool {
    &&& rule.pkg@ == pkg
    &&& rule.thread@.len() > 0
    &&& thread.len() > 0
    &&& vstd::utf8::encode_utf8(thread).len() < 32
    &&& rule_match::glob(rule.thread_pattern@, thread)
}

/// Whether a rule is for the whole of the package.
pub open spec fn is_for_package(rule: AffinityRule, pkg: Seq<char>) -> bool {
    rule.pkg@ == pkg && rule.thread@.len() == 0
}

/// Whether there is a rule for threads of the package with this name.
pub open spec fn has_thread_rule(
    rules: Seq<AffinityRule>,
    pkg: Seq<char>,
    thread: Seq<char>,
) -> bool {
    exists|k: int| 0 <= k < rules.len() && is_for_thread(#[trigger] rules[k], pkg, thread)
}

/// Whether one of the rules that decide on a thread names a CPU: those for the thread, if
/// there is one, and otherwise those for its whole package.
pub open spec fn reaches(
    rules: Seq<AffinityRule>,
    pkg: Seq<char>,
    thread: Seq<char>,
    cpu: int,
) -> bool {
    if has_thread_rule(rules, pkg, thread) {
        exists|k: int|
            0 <= k < rules.len() && is_for_thread(#[trigger] rules[k], pkg, thread)
                && rules[k].cpus@.contains(cpu)
    } else {
        exists|k: int|
            0 <= k < rules.len() && is_for_package(#[trigger] rules[k], pkg)
                && rules[k].cpus@.contains(cpu)
    }
}

proof fn lemma_filter_none<A>(s: Seq<A>, f: spec_fn(A) -> bool)
    requires
        forall|k: int| 0 <= k < s.len() ==> !f(#[trigger] s[k]),
    ensures
        s.filter(f) == Seq::<A>::empty(),
    decreases s.len(),
{
    reveal(Seq::filter);
    if s.len() > 0 {
        let front = s.drop_last();
        assert forall|k: int| 0 <= k < front.len() implies !f(#[trigger] front[k]) by {
            assert(front[k] == s[k]);
        }
        lemma_filter_none(front, f);
        assert(s.last() == s[s.len() - 1]);
    }
}

proof fn lemma_filter_one<A>(s: Seq<A>, f: spec_fn(A) -> bool, i: int)
    requires
        0 <= i < s.len(),
        f(s[i]),
        forall|k: int| 0 <= k < s.len() && k != i ==> !f(#[trigger] s[k]),
    ensures
        s.filter(f) == seq![s[i]],
    decreases s.len(),
{
    reveal(Seq::filter);
    let front = s.drop_last();
    assert(s.last() == s[s.len() - 1]);
    assert forall|k: int| 0 <= k < front.len() && k != i implies !f(#[trigger] front[k]) by {
        assert(front[k] == s[k]);
    }
    if i == s.len() - 1 {
        lemma_filter_none(front, f);
        assert(s.filter(f) =~= seq![s[i]]);
    } else {
        assert(front[i] == s[i]);
        lemma_filter_one(front, f, i);
    }
}

proof fn lemma_filter_at_least<A>(s: Seq<A>, f: spec_fn(A) -> bool, i: int, j: int)
    requires
        0 <= i <= j < s.len(),
        f(s[i]),
        f(s[j]),
    ensures
        s.filter(f).len() >= if i == j {
            1nat
        } else {
            2nat
        },
    decreases s.len(),
{
    reveal(Seq::filter);
    let front = s.drop_last();
    assert(s.last() == s[s.len() - 1]);
    if j < s.len() - 1 {
        assert(front[i] == s[i] && front[j] == s[j]);
        lemma_filter_at_least(front, f, i, j);
    } else if i < j {
        assert(front[i] == s[i]);
        lemma_filter_at_least(front, f, i, i);
    }
}

proof fn lemma_thread_rules(rules: Seq<AffinityRule>, pkg: Seq<char>, thread: Seq<char>)
    ensures
        has_thread_rule(rules, pkg, thread) == rule_match::thread_matched(rules, pkg, thread),
{
    if has_thread_rule(rules, pkg, thread) {
        let k = choose|k: int|
            0 <= k < rules.len() && is_for_thread(#[trigger] rules[k], pkg, thread);
        assert(rule_match::is_thread_match(rules[k], pkg, thread));
    }
    if rule_match::thread_matched(rules, pkg, thread) {
        let k = choose|k: int|
            0 <= k < rules.len() && rule_match::is_thread_match(#[trigger] rules[k], pkg, thread);
        assert(is_for_thread(rules[k], pkg, thread));
    }
}

proof fn lemma_reached(rules: Seq<AffinityRule>, pkg: Seq<char>, thread: Seq<char>, cpu: int)
    ensures
        rule_match::planned(rules, pkg, thread).cpus.contains(cpu) == reaches(
            rules,
            pkg,
            thread,
            cpu,
        ),
{
    lemma_thread_rules(rules, pkg, thread);
    let plan = rule_match::planned(rules, pkg, thread);
    if has_thread_rule(rules, pkg, thread) {
        if plan.cpus.contains(cpu) {
            let k = choose|k: int|
                0 <= k < rules.len() && rule_match::is_thread_match(#[trigger] rules[k], pkg, thread)
                    && rules[k].cpus@.contains(cpu);
            assert(is_for_thread(rules[k], pkg, thread));
        }
        if reaches(rules, pkg, thread, cpu) {
            let k = choose|k: int|
                0 <= k < rules.len() && is_for_thread(#[trigger] rules[k], pkg, thread)
                    && rules[k].cpus@.contains(cpu);
            assert(rule_match::is_thread_match(rules[k], pkg, thread));
        }
    } else {
        if plan.cpus.contains(cpu) {
            let k = choose|k: int|
                0 <= k < rules.len() && rule_match::is_package_rule(#[trigger] rules[k], pkg)
                    && rules[k].cpus@.contains(cpu);
            assert(is_for_package(rules[k], pkg));
        }
        if reaches(rules, pkg, thread, cpu) {
            let k = choose|k: int|
                0 <= k < rules.len() && is_for_package(#[trigger] rules[k], pkg)
                    && rules[k].cpus@.contains(cpu);
            assert(rule_match::is_package_rule(rules[k], pkg));
        }
    }
}

/// A thread is bound to the CPUs of all thread rules that are for it, if there is one, and
/// otherwise to those of all rules for its whole package. If that is no CPU, it is bound to
/// all present ones if its package is listed as one with thread rules, and is left alone
/// otherwise.
pub proof fn law_binding(
    cfg: AppConfig,
    pkg: Seq<char>,
    thread: Seq<char>,
    created: bool,
    cpu: int,
)
    ensures
        ({
            let rules = cfg.rules@;
            let r = rule_match::settled(rule_match::planned(rules, pkg, thread), pkg, cfg, created);
            &&& reaches(rules, pkg, thread, cpu) ==> {
                &&& r is Some
                &&& r->0.is_thread_rule == has_thread_rule(rules, pkg, thread)
                &&& forall|c: int| #[trigger]
                    r->0.cpus.contains(c) <==> reaches(rules, pkg, thread, c)
            }
            &&& (forall|c: int| !#[trigger] reaches(rules, pkg, thread, c)) ==> {
                if text::texts(cfg.has_thread_rules@).contains(pkg) {
                    &&& r is Some
                    &&& r->0.cpus == cfg.topo.present_cpus@
                    &&& r->0.cpuset_dir.len() == 0
                    &&& !r->0.is_thread_rule
                } else {
                    r is None
                }
            }
        }),
{
    let rules = cfg.rules@;
    let plan = rule_match::planned(rules, pkg, thread);
    lemma_thread_rules(rules, pkg, thread);
    assert forall|c: int| #[trigger] plan.cpus.contains(c) == reaches(rules, pkg, thread, c) by {
        lemma_reached(rules, pkg, thread, c);
    }
    lemma_reached(rules, pkg, thread, cpu);
    if forall|c: int| !#[trigger] reaches(rules, pkg, thread, c) {
        assert(plan.cpus =~= Set::<int>::empty());
    }
}

/// A thread that thread rules bind goes to the directory of exactly its CPUs, if directories
/// are in use and it could be made, and to none otherwise. A thread that the only rule for
/// its package binds goes to the directory of that rule, and one that several such rules
/// bind to none.
pub proof fn law_directory_of_binding(
    cfg: AppConfig,
    pkg: Seq<char>,
    thread: Seq<char>,
    created: bool,
    i: int,
    j: int,
)
    requires
        rule_match::settled(
            rule_match::planned(cfg.rules@, pkg, thread),
            pkg,
            cfg,
            created,
        ) is Some,
    ensures
        ({
            let rules = cfg.rules@;
            let r = rule_match::settled(
                rule_match::planned(rules, pkg, thread),
                pkg,
                cfg,
                created,
            )->0;
            let by_thread = has_thread_rule(rules, pkg, thread);
            &&& r.is_thread_rule && cfg.topo.cpuset_enabled && created ==> r.cpuset_dir
                == cpuset::range_string(r.cpus)
            &&& r.is_thread_rule && !(cfg.topo.cpuset_enabled && created) ==> r.cpuset_dir.len()
                == 0
            &&& !by_thread && 0 <= i < rules.len() && is_for_package(rules[i], pkg) && (exists|
                c: int,
            |
                rules[i].cpus@.contains(c)) && (forall|k: int|
                0 <= k < rules.len() && k != i ==> !is_for_package(#[trigger] rules[k], pkg))
                ==> r.cpuset_dir == rules[i].cpuset_dir@
            &&& !by_thread && 0 <= i < j < rules.len() && is_for_package(rules[i], pkg)
                && is_for_package(rules[j], pkg) ==> r.cpuset_dir.len() == 0
        }),
{
    let rules = cfg.rules@;
    let f = |rule: AffinityRule| rule_match::is_package_rule(rule, pkg);
    let by_thread = has_thread_rule(rules, pkg, thread);
    lemma_thread_rules(rules, pkg, thread);
    if !by_thread && 0 <= i < rules.len() && is_for_package(rules[i], pkg) {
        if forall|k: int|
            0 <= k < rules.len() && k != i ==> !is_for_package(#[trigger] rules[k], pkg) {
            assert forall|k: int| 0 <= k < rules.len() && k != i implies !f(#[trigger] rules[k]) by {
                assert(!is_for_package(rules[k], pkg));
            }
            lemma_filter_one(rules, f, i);
            if exists|c: int| rules[i].cpus@.contains(c) {
                let c = choose|c: int| rules[i].cpus@.contains(c);
                assert(rule_match::is_package_rule(rules[i], pkg));
                assert(rule_match::package_cpus(rules, pkg).contains(c));
            }
        }
        if i < j < rules.len() && is_for_package(rules[j], pkg) {
            lemma_filter_at_least(rules, f, i, j);
        }
    }
}

// ---------------------------------------------------------------------------
// Task names
// ---------------------------------------------------------------------------
proof fn lemma_first_beginning_at(pkgs: Seq<Seq<char>>, comm: Seq<char>, i: int, k: int)
    requires
        0 <= i <= k <= pkgs.len(),
        forall|j: int| i <= j < k ==> !comm.is_prefix_of(#[trigger] pkgs[j]),
        k < pkgs.len() ==> comm.is_prefix_of(pkgs[k]),
    ensures
        rule_match::first_beginning(pkgs, comm, i) == if k < pkgs.len() {
            Some(pkgs[k])
        } else {
            None
        },
    decreases k - i,
{
    if i < k {
        lemma_first_beginning_at(pkgs, comm, i + 1, k);
    }
}

proof fn lemma_first_ending_at(pkgs: Seq<Seq<char>>, comm: Seq<char>, i: int, k: int)
    requires
        0 <= i <= k <= pkgs.len(),
        forall|j: int| i <= j < k ==> !comm.is_suffix_of(#[trigger] pkgs[j]),
        k < pkgs.len() ==> comm.is_suffix_of(pkgs[k]),
    ensures
        rule_match::first_ending(pkgs, comm, i) == if k < pkgs.len() {
            Some(pkgs[k])
        } else {
            None
        },
    decreases k - i,
{
    if i < k {
        lemma_first_ending_at(pkgs, comm, i + 1, k);
    }
}

/// A task name that is a package stands for that package, whatever other packages there
/// are. Another one of at least 15 bytes stands for the first package that begins with it,
/// or, if none does, for the first that ends with it. Any other stands for none.
pub proof fn law_task_name(comm: Seq<char>, pkgs: Seq<Seq<char>>, k: int)
    ensures
        ({
            let r = rule_match::spec_comm_to_pkg(comm, pkgs);
            let long = vstd::utf8::encode_utf8(comm).len() >= 15;
            let none_begins = forall|j: int|
                0 <= j < pkgs.len() ==> !comm.is_prefix_of(#[trigger] pkgs[j]);
            let none_ends = forall|j: int|
                0 <= j < pkgs.len() ==> !comm.is_suffix_of(#[trigger] pkgs[j]);
            &&& pkgs.contains(comm) ==> r == Some(comm)
            &&& !pkgs.contains(comm) && !long ==> r is None
            &&& !pkgs.contains(comm) && none_begins && none_ends ==> r is None
            &&& !pkgs.contains(comm) && long && 0 <= k < pkgs.len() && comm.is_prefix_of(pkgs[k])
                && (forall|j: int| 0 <= j < k ==> !comm.is_prefix_of(#[trigger] pkgs[j])) ==> r
                == Some(pkgs[k])
            &&& !pkgs.contains(comm) && long && none_begins && 0 <= k < pkgs.len()
                && comm.is_suffix_of(pkgs[k]) && (forall|j: int|
                0 <= j < k ==> !comm.is_suffix_of(#[trigger] pkgs[j])) ==> r == Some(pkgs[k])
        }),
{
    let n = pkgs.len() as int;
    let none_begins = forall|j: int|
        0 <= j < pkgs.len() ==> !comm.is_prefix_of(#[trigger] pkgs[j]);
    let none_ends = forall|j: int| 0 <= j < pkgs.len() ==> !comm.is_suffix_of(#[trigger] pkgs[j]);
    if none_begins {
        lemma_first_beginning_at(pkgs, comm, 0, n);
        if none_ends {
            lemma_first_ending_at(pkgs, comm, 0, n);
        } else if 0 <= k < n && comm.is_suffix_of(pkgs[k]) && (forall|j: int|
            0 <= j < k ==> !comm.is_suffix_of(#[trigger] pkgs[j])) {
            lemma_first_ending_at(pkgs, comm, 0, k);
        }
    } else if 0 <= k < n && comm.is_prefix_of(pkgs[k]) && (forall|j: int|
        0 <= j < k ==> !comm.is_prefix_of(#[trigger] pkgs[j])) {
        lemma_first_beginning_at(pkgs, comm, 0, k);
    }
}

// ---------------------------------------------------------------------------
// Descriptions
// ---------------------------------------------------------------------------
/// What a thread is to be bound to, and what the rules say of it, is described by all that
/// is held of it.
pub proof fn law_descriptions(
    rule: AffinityRule,
    plan: AffinityPlan,
    result: AffinityResult,
    name: String,
)
    ensures
        rule@.pkg == rule.pkg@,
        rule@.thread == rule.thread@,
        rule@.thread_pattern == rule.thread_pattern@,
        rule@.cpuset_dir == rule.cpuset_dir@,
        rule@.cpus == rule.cpus@,
        plan@.cpus == plan.cpus@,
        plan@.package_dir == plan.package_dir@,
        plan@.matched == plan.matched,
        result@.cpus == result.cpus@,
        result@.cpuset_dir == result.cpuset_dir@,
        result@.is_thread_rule == result.is_thread_rule,
        rule_match::affinity_of(None) is None,
        rule_match::affinity_of(Some(result)) == Some(result@),
        rule_match::optional_text(None) is None,
        rule_match::optional_text(Some(name)) == Some(name@),
{
}

} // verus!
